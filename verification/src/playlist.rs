//! The order the background tracks play in: the next one in turn, or a
//! random one other than the track playing.

use vstd::prelude::*;
use rand::rngs::StdRng;
use crate::quests::roll_index;

verus! {

/// The track after `current`, wrapping round to the first; `current` when
/// there are no tracks.
pub open spec fn next_of(current: int, count: int) -> int {
    if count == 0 {
        current
    } else {
        (current + 1) % count
    }
}

/// Where a random draw of `drawn` leads from `current`: the drawn track, or
/// the one after it when the draw repeats the track playing; `current` when
/// there is at most one track.
pub open spec fn after_draw(current: int, count: int, drawn: int) -> int {
    if count <= 1 {
        current
    } else if drawn == current {
        (drawn + 1) % count
    } else {
        drawn
    }
}

/// The track after `current` in turn.
pub fn next_track_index(current: usize, count: usize) -> (r: usize)
    requires
        current < usize::MAX,
    ensures
        r == next_of(current as int, count as int),
{
    if count == 0 {
        current
    } else {
        (current + 1) % count
    }
}

/// The track a draw of `drawn` out of `count` leads to from `current`.
pub fn track_after_draw(current: usize, count: usize, drawn: usize) -> (r: usize)
    requires
        count <= 1 || drawn < count,
    ensures
        r == after_draw(current as int, count as int, drawn as int),
{
    if count <= 1 {
        current
    } else if drawn == current {
        (drawn + 1) % count
    } else {
        drawn
    }
}

/// A random track to switch to: with several tracks, one drawn from all of
/// them, moved on by one when it repeats the track playing.
pub fn random_track_index(rng: &mut StdRng, current: usize, count: usize) -> (r: usize)
    ensures
        count <= 1 ==> r == current,
        count > 1 ==> exists|drawn: int| 0 <= drawn < count && r == #[trigger] after_draw(current as int, count as int, drawn),
{
    if count <= 1 {
        return current;
    }
    let drawn = roll_index(rng, count);
    let r = track_after_draw(current, count, drawn);
    assert(r == after_draw(current as int, count as int, drawn as int));
    r
}

/// With several tracks, a draw always switches to another track, and to one
/// that exists.
pub proof fn lemma_draw_switches_track(current: int, count: int, drawn: int)
    requires
        count > 1,
        0 <= current < count,
        0 <= drawn < count,
    ensures
        after_draw(current, count, drawn) != current,
        0 <= after_draw(current, count, drawn) < count,
{
    if drawn == current {
        if current + 1 < count {
            vstd::arithmetic::div_mod::lemma_small_mod((current + 1) as nat, count as nat);
        } else {
            vstd::arithmetic::div_mod::lemma_mod_self_0(count);
        }
    }
}

/// Moving on in turn stays among the tracks and, with several, leaves the
/// track playing.
pub proof fn lemma_next_switches_track(current: int, count: int)
    requires
        count > 1,
        0 <= current < count,
    ensures
        next_of(current, count) != current,
        0 <= next_of(current, count) < count,
{
    if current + 1 < count {
        vstd::arithmetic::div_mod::lemma_small_mod((current + 1) as nat, count as nat);
    } else {
        vstd::arithmetic::div_mod::lemma_mod_self_0(count);
    }
}

} // verus!
