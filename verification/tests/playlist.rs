use rand::rngs::StdRng;
use rand::SeedableRng;
use strategy::playlist::{next_track_index, random_track_index, track_after_draw};

#[test]
fn tracks_play_in_turn_and_wrap() {
    assert_eq!(next_track_index(0, 3), 1);
    assert_eq!(next_track_index(2, 3), 0);
    assert_eq!(next_track_index(0, 1), 0);
    assert_eq!(next_track_index(5, 0), 5);
}

#[test]
fn a_repeated_draw_moves_on_by_one() {
    assert_eq!(track_after_draw(1, 4, 3), 3);
    assert_eq!(track_after_draw(1, 4, 1), 2);
    assert_eq!(track_after_draw(3, 4, 3), 0);
    assert_eq!(track_after_draw(0, 1, 0), 0);
    assert_eq!(track_after_draw(7, 0, 0), 7);
}

#[test]
fn a_random_track_is_another_track() {
    let mut rng = StdRng::seed_from_u64(11);
    for current in 0..5 {
        for _ in 0..20 {
            let r = random_track_index(&mut rng, current, 5);
            assert!(r < 5);
            assert_ne!(r, current);
        }
    }
    assert_eq!(random_track_index(&mut rng, 0, 1), 0);
    assert_eq!(random_track_index(&mut rng, 3, 0), 3);
}
