//! Felling and hauling jobs: who takes a job, and how each job advances.

use vstd::prelude::*;
use crate::types::{
    Pos, Job, JobKind, Citizen, CitizenState, Building, BuildingKind, LogItem, WarehouseStore, Resources,
    manhattan, manhattan_distance, nearest_warehouse, find_nearest_warehouse,
};
use crate::world::{World, not_at};
use crate::game::{plan_path, route_planned};

verus! {

// ---------------------------------------------------------------- assignment

/// The tile a job starts at: the tree to fell, or the log to pick up.
pub open spec fn anchor(kind: JobKind) -> Pos {
    match kind {
        JobKind::ChopWood { pos } => pos,
        JobKind::HaulWood { from, .. } => from,
    }
}

fn job_anchor(kind: &JobKind) -> (p: Pos)
    ensures
        p == anchor(*kind),
{
    match *kind {
        JobKind::ChopWood { pos } => pos,
        JobKind::HaulWood { from, .. } => from,
    }
}

/// Kind of the first building at or after index `i` that stands on `p`.
pub open spec fn building_kind_at(bs: Seq<Building>, p: Pos, i: int) -> Option<BuildingKind>
    decreases bs.len() - i,
{
    if i < 0 || i >= bs.len() {
        None
    } else if bs[i].pos == p {
        Some(bs[i].kind)
    } else {
        building_kind_at(bs, p, i + 1)
    }
}

/// Kind of the first building standing on `p`.
pub fn first_building_kind(buildings: &Vec<Building>, p: Pos) -> (r: Option<BuildingKind>)
    ensures
        r == building_kind_at(buildings@, p, 0),
{
    let mut i: usize = 0;
    while i < buildings.len()
        invariant
            i <= buildings.len(),
            building_kind_at(buildings@, p, 0) == building_kind_at(buildings@, p, i as int),
        decreases buildings.len() - i,
    {
        if buildings[i].pos == p {
            return Some(buildings[i].kind);
        }
        i += 1;
    }
    None
}

/// The citizen may take a felling or hauling job: it is free, standing,
/// fed, idle or at work, and employed at a lumberjack's hut.
pub open spec fn can_take_wood_job(c: Citizen, bs: Seq<Building>) -> bool {
    &&& c.assigned_job is None
    &&& !c.moving
    &&& c.fed_today
    &&& (c.state == CitizenState::Idle || c.state == CitizenState::Working || c.state
        == CitizenState::GoingToWork)
    &&& (c.workplace matches Some(wp) && building_kind_at(bs, wp, 0) == Some(BuildingKind::Lumberjack))
}

/// Index of the nearest citizen among the first `n` that may take a wood
/// job at `t`, the first one on ties; -1 when there is none.
pub open spec fn nearest_worker_in(cs: Seq<Citizen>, bs: Seq<Building>, t: Pos, n: int) -> int
    decreases n,
{
    if n <= 0 {
        -1
    } else {
        let b = nearest_worker_in(cs, bs, t, n - 1);
        if can_take_wood_job(cs[n - 1], bs) && (b < 0 || manhattan(cs[n - 1].pos, t) < manhattan(
            cs[b].pos,
            t,
        )) {
            n - 1
        } else {
            b
        }
    }
}

/// The chosen worker is eligible and no eligible citizen is nearer; those
/// before it are strictly farther; there is none only when nobody is
/// eligible.
pub proof fn lemma_nearest_worker(cs: Seq<Citizen>, bs: Seq<Building>, t: Pos, n: int)
    requires
        0 <= n <= cs.len(),
    ensures
        ({
            let r = nearest_worker_in(cs, bs, t, n);
            &&& -1 <= r < n
            &&& r == -1 <==> forall|k: int| 0 <= k < n ==> !#[trigger] can_take_wood_job(cs[k], bs)
            &&& r >= 0 ==> can_take_wood_job(cs[r], bs)
            &&& r >= 0 ==> forall|k: int|
                0 <= k < n && #[trigger] can_take_wood_job(cs[k], bs) ==> manhattan(cs[r].pos, t)
                    <= manhattan(cs[k].pos, t)
            &&& r >= 0 ==> forall|k: int|
                0 <= k < r && #[trigger] can_take_wood_job(cs[k], bs) ==> manhattan(cs[r].pos, t)
                    < manhattan(cs[k].pos, t)
        }),
    decreases n,
{
    if n > 0 {
        lemma_nearest_worker(cs, bs, t, n - 1);
    }
}

/// Index of the nearest citizen that may take a wood job at `target`, the
/// first one on ties.
pub fn nearest_wood_worker(citizens: &Vec<Citizen>, buildings: &Vec<Building>, target: Pos) -> (r:
    Option<usize>)
    ensures
        match r {
            Some(i) => i == nearest_worker_in(citizens@, buildings@, target, citizens.len() as int)
                && i < citizens.len(),
            None => nearest_worker_in(citizens@, buildings@, target, citizens.len() as int) == -1,
        },
{
    let mut best: Option<usize> = None;
    let mut best_d: i64 = 0;
    let mut i: usize = 0;
    while i < citizens.len()
        invariant
            i <= citizens.len(),
            match best {
                Some(b) => b == nearest_worker_in(citizens@, buildings@, target, i as int) && b < i
                    && best_d == manhattan(citizens@[b as int].pos, target),
                None => nearest_worker_in(citizens@, buildings@, target, i as int) == -1,
            },
        decreases citizens.len() - i,
    {
        let c = &citizens[i];
        let state_ok = c.state == CitizenState::Idle || c.state == CitizenState::Working || c.state
            == CitizenState::GoingToWork;
        if c.assigned_job.is_none() && !c.moving && c.fed_today && state_ok {
            if let Some(wp) = c.workplace {
                if first_building_kind(buildings, wp) == Some(BuildingKind::Lumberjack) {
                    let d = manhattan_distance(c.pos, target);
                    let closer = match best {
                        None => true,
                        Some(_) => d < best_d,
                    };
                    if closer {
                        best = Some(i);
                        best_d = d;
                    }
                }
            }
        }
        i += 1;
    }
    proof {
        lemma_nearest_worker(citizens@, buildings@, target, citizens.len() as int);
    }
    best
}

/// The state a citizen takes on with a job: idle and commuting citizens
/// start working.
pub open spec fn promoted(s: CitizenState) -> CitizenState {
    if s == CitizenState::Idle || s == CitizenState::GoingToWork {
        CitizenState::Working
    } else {
        s
    }
}

/// The citizen holding job `id`.
pub open spec fn with_job(c: Citizen, id: u64) -> Citizen {
    Citizen { assigned_job: Some(id), state: promoted(c.state), ..c }
}

/// `after` is `before` sent towards `goal`, with no step progress; it stands
/// still exactly when it already is at `goal`.
pub open spec fn dispatched(w: World, before: Citizen, after: Citizen, goal: Pos) -> bool {
    &&& after.progress == 0
    &&& route_planned(
        w,
        before,
        Citizen {
            progress: if before.pos == goal {
                before.progress
            } else {
                0
            },
            ..after
        },
        goal,
    )
}

/// Offering `job` to the citizens `cs` gives `job2` and `cs2`: an open job
/// goes to the nearest eligible citizen, who heads for the job's tile; a job
/// that is taken or done, or that nobody may take, changes nothing.
pub open spec fn job_offered(
    w: World,
    bs: Seq<Building>,
    cs: Seq<Citizen>,
    job: Job,
    cs2: Seq<Citizen>,
    job2: Job,
) -> bool {
    let i = nearest_worker_in(cs, bs, anchor(job.kind), cs.len() as int);
    if job.taken || job.done || i < 0 {
        cs2 == cs && job2 == job
    } else {
        &&& job2 == Job { taken: true, ..job }
        &&& cs2.len() == cs.len()
        &&& forall|k: int| 0 <= k < cs.len() && k != i ==> cs2[k] == cs[k]
        &&& dispatched(w, with_job(cs[i], job.id), cs2[i], anchor(job.kind))
    }
}

/// Step `j` of an assignment round: job `j` offered to the citizens as they
/// were after the jobs before it.
pub open spec fn offer_step(
    w: World,
    bs: Seq<Building>,
    trace: Seq<Seq<Citizen>>,
    jobs: Seq<Job>,
    jobs2: Seq<Job>,
    j: int,
) -> bool {
    job_offered(w, bs, trace[j], jobs[j], trace[j + 1], jobs2[j])
}

/// The jobs are offered in order; `trace[j]` are the citizens before job `j`.
pub open spec fn assignment_round(
    w: World,
    bs: Seq<Building>,
    cs: Seq<Citizen>,
    jobs: Seq<Job>,
    cs2: Seq<Citizen>,
    jobs2: Seq<Job>,
    trace: Seq<Seq<Citizen>>,
) -> bool {
    &&& jobs2.len() == jobs.len()
    &&& trace.len() == jobs.len() + 1
    &&& trace[0] == cs
    &&& trace[jobs.len() as int] == cs2
    &&& forall|j: int| 0 <= j < jobs.len() ==> #[trigger] offer_step(w, bs, trace, jobs, jobs2, j)
}

proof fn lemma_round_prefix(
    w: World,
    bs: Seq<Building>,
    cs: Seq<Citizen>,
    jobs: Seq<Job>,
    jobs2: Seq<Job>,
    trace: Seq<Seq<Citizen>>,
    t: int,
)
    requires
        jobs2.len() == jobs.len(),
        trace.len() == jobs.len() + 1,
        trace[0] == cs,
        0 <= t <= jobs.len(),
        forall|j: int| 0 <= j < jobs.len() ==> #[trigger] offer_step(w, bs, trace, jobs, jobs2, j),
    ensures
        trace[t].len() == cs.len(),
        forall|k: int|
            0 <= k < cs.len() && (#[trigger] cs[k]).assigned_job is Some ==> trace[t][k].assigned_job
                == cs[k].assigned_job,
        forall|j: int|
            0 <= j < t && !jobs[j].taken && (#[trigger] jobs2[j]).taken ==> exists|k: int|
                0 <= k < cs.len() && cs[k].assigned_job is None && (#[trigger] trace[t][k]).assigned_job == Some(
                    jobs[j].id,
                ),
    decreases t,
{
    if t > 0 {
        let s = t - 1;
        lemma_round_prefix(w, bs, cs, jobs, jobs2, trace, s);
        assert(offer_step(w, bs, trace, jobs, jobs2, s));
        let before = trace[s];
        let after = trace[t];
        let job = jobs[s];
        let i = nearest_worker_in(before, bs, anchor(job.kind), before.len() as int);
        lemma_nearest_worker(before, bs, anchor(job.kind), before.len() as int);
        if job.taken || job.done || i < 0 {
            assert(after == before);
            assert forall|j: int|
                0 <= j < t && !jobs[j].taken && (#[trigger] jobs2[j]).taken implies exists|k: int|
                0 <= k < cs.len() && cs[k].assigned_job is None && (#[trigger] trace[t][k]).assigned_job == Some(
                    jobs[j].id,
                ) by {
                assert(j < s);
            }
        } else {
            assert(before[i].assigned_job is None);
            assert(after[i].assigned_job == Some(job.id));
            assert forall|k: int|
                0 <= k < cs.len() && (#[trigger] cs[k]).assigned_job is Some implies trace[t][k].assigned_job
                == cs[k].assigned_job by {
                assert(before[k].assigned_job == cs[k].assigned_job);
                assert(k != i);
            }
            assert forall|j: int|
                0 <= j < t && !jobs[j].taken && (#[trigger] jobs2[j]).taken implies exists|k: int|
                0 <= k < cs.len() && cs[k].assigned_job is None && (#[trigger] trace[t][k]).assigned_job == Some(
                    jobs[j].id,
                ) by {
                if j < s {
                    let k = choose|k: int|
                        0 <= k < cs.len() && cs[k].assigned_job is None && (#[trigger] trace[s][k]).assigned_job
                            == Some(jobs[j].id);
                    assert(k != i);
                    assert(after[k] == before[k]);
                    assert(trace[t][k].assigned_job == Some(jobs[j].id));
                } else {
                    if cs[i].assigned_job is Some {
                        assert(before[i].assigned_job == cs[i].assigned_job);
                    }
                    assert(cs[i].assigned_job is None);
                    assert(trace[t][i].assigned_job == Some(jobs[j].id));
                }
            }
        }
    }
}

/// An assignment round pairs jobs with workers: a citizen who holds a job
/// keeps it, a job's state only changes from open to taken, and every job
/// that becomes taken is then held by a citizen who had none before.
pub proof fn lemma_assignment_pairs(
    w: World,
    bs: Seq<Building>,
    cs: Seq<Citizen>,
    jobs: Seq<Job>,
    cs2: Seq<Citizen>,
    jobs2: Seq<Job>,
    trace: Seq<Seq<Citizen>>,
)
    requires
        assignment_round(w, bs, cs, jobs, cs2, jobs2, trace),
    ensures
        cs2.len() == cs.len(),
        forall|k: int|
            0 <= k < cs.len() && (#[trigger] cs[k]).assigned_job is Some ==> cs2[k].assigned_job == cs[k].assigned_job,
        forall|j: int|
            0 <= j < jobs.len() ==> #[trigger] jobs2[j] == jobs[j] || (!jobs[j].taken && !jobs[j].done && jobs2[j]
                == Job { taken: true, ..jobs[j] }),
        forall|j: int|
            0 <= j < jobs.len() && !jobs[j].taken && (#[trigger] jobs2[j]).taken ==> exists|k: int|
                0 <= k < cs.len() && cs[k].assigned_job is None && (#[trigger] cs2[k]).assigned_job == Some(
                    jobs[j].id,
                ),
{
    lemma_round_prefix(w, bs, cs, jobs, jobs2, trace, jobs.len() as int);
    assert forall|j: int| 0 <= j < jobs.len() implies #[trigger] jobs2[j] == jobs[j] || (!jobs[j].taken
        && !jobs[j].done && jobs2[j] == Job { taken: true, ..jobs[j] }) by {
        assert(offer_step(w, bs, trace, jobs, jobs2, j));
    }
}

/// No job is held by two citizens.
pub open spec fn held_once(cs: Seq<Citizen>) -> bool {
    forall|a: int, b: int|
        0 <= a < cs.len() && 0 <= b < cs.len() && a != b && (#[trigger] cs[a]).assigned_job is Some
            ==> cs[a].assigned_job != (#[trigger] cs[b]).assigned_job
}

/// No two jobs share an id.
pub open spec fn ids_distinct(jobs: Seq<Job>) -> bool {
    forall|a: int, b: int| 0 <= a < jobs.len() && 0 <= b < jobs.len() && a != b ==> (#[trigger] jobs[a]).id != (#[trigger] jobs[b]).id
}

/// Every listed job that a citizen holds is marked taken.
pub open spec fn held_are_taken(cs: Seq<Citizen>, jobs: Seq<Job>) -> bool {
    forall|k: int, j: int|
        0 <= k < cs.len() && 0 <= j < jobs.len() && (#[trigger] cs[k]).assigned_job == Some((#[trigger] jobs[j]).id)
            ==> jobs[j].taken
}

/// The jobs after the first `t` offers of a round: those offered as they
/// came out, the rest as they were.
pub open spec fn jobs_after(jobs: Seq<Job>, jobs2: Seq<Job>, t: int) -> Seq<Job> {
    jobs2.take(t) + jobs.skip(t)
}

proof fn lemma_held_once_prefix(
    w: World,
    bs: Seq<Building>,
    cs: Seq<Citizen>,
    jobs: Seq<Job>,
    jobs2: Seq<Job>,
    trace: Seq<Seq<Citizen>>,
    t: int,
)
    requires
        jobs2.len() == jobs.len(),
        trace.len() == jobs.len() + 1,
        trace[0] == cs,
        0 <= t <= jobs.len(),
        forall|j: int| 0 <= j < jobs.len() ==> #[trigger] offer_step(w, bs, trace, jobs, jobs2, j),
        ids_distinct(jobs),
        held_once(cs),
        held_are_taken(cs, jobs),
    ensures
        trace[t].len() == cs.len(),
        held_once(trace[t]),
        held_are_taken(trace[t], jobs_after(jobs, jobs2, t)),
        jobs_after(jobs, jobs2, t).len() == jobs.len(),
        forall|j: int| 0 <= j < jobs.len() ==> (#[trigger] jobs_after(jobs, jobs2, t)[j]).id == jobs[j].id,
    decreases t,
{
    let cur = jobs_after(jobs, jobs2, t);
    if t == 0 {
        assert(cur =~= jobs);
    } else {
        let s = t - 1;
        lemma_held_once_prefix(w, bs, cs, jobs, jobs2, trace, s);
        assert(offer_step(w, bs, trace, jobs, jobs2, s));
        let prev = jobs_after(jobs, jobs2, s);
        let before = trace[s];
        let after = trace[t];
        let job = jobs[s];
        assert(prev[s] == job);
        assert(cur.len() == jobs.len());
        assert forall|j: int| 0 <= j < jobs.len() && j != s implies cur[j] == prev[j] by {
            if j < s {
                assert(cur[j] == jobs2[j]);
                assert(prev[j] == jobs2[j]);
            } else {
                assert(cur[j] == jobs[j]);
                assert(prev[j] == jobs[j]);
            }
        }
        assert(cur[s] == jobs2[s]);
        let i = nearest_worker_in(before, bs, anchor(job.kind), before.len() as int);
        lemma_nearest_worker(before, bs, anchor(job.kind), before.len() as int);
        if job.taken || job.done || i < 0 {
            assert(after == before);
            assert(jobs2[s] == job);
            assert(cur =~= prev);
        } else {
            assert(before[i].assigned_job is None);
            assert(after[i].assigned_job == Some(job.id));
            assert(jobs2[s] == Job { taken: true, ..job });
            assert forall|a: int, b: int|
                0 <= a < after.len() && 0 <= b < after.len() && a != b && (#[trigger] after[a]).assigned_job is Some
                    implies after[a].assigned_job != (#[trigger] after[b]).assigned_job by {
                if a == i {
                    assert(after[b] == before[b]);
                    if before[b].assigned_job == Some(job.id) {
                        assert(before[b].assigned_job == Some(prev[s].id));
                        assert(prev[s].taken);
                    }
                } else if b == i {
                    assert(after[a] == before[a]);
                    if before[a].assigned_job == Some(job.id) {
                        assert(before[a].assigned_job == Some(prev[s].id));
                        assert(prev[s].taken);
                    }
                } else {
                    assert(after[a] == before[a]);
                    assert(after[b] == before[b]);
                }
            }
            assert forall|k: int, j: int|
                0 <= k < after.len() && 0 <= j < cur.len() && (#[trigger] after[k]).assigned_job == Some(
                    (#[trigger] cur[j]).id,
                ) implies cur[j].taken by {
                if j != s {
                    assert(cur[j] == prev[j]);
                    if k == i {
                        assert(cur[j].id == jobs[j].id);
                        assert(jobs[j].id == jobs[s].id);
                    } else {
                        assert(after[k] == before[k]);
                    }
                }
            }
        }
        assert forall|j: int| 0 <= j < jobs.len() implies (#[trigger] cur[j]).id == jobs[j].id by {
            if j != s {
                assert(cur[j] == prev[j]);
                assert(prev[j].id == jobs[j].id);
            }
        }
    }
}

/// An assignment round never gives one job to two citizens: when job ids
/// are distinct, no job is held twice and every listed job a citizen holds
/// is marked taken, the same holds after the round.
pub proof fn lemma_jobs_held_once(
    w: World,
    bs: Seq<Building>,
    cs: Seq<Citizen>,
    jobs: Seq<Job>,
    cs2: Seq<Citizen>,
    jobs2: Seq<Job>,
    trace: Seq<Seq<Citizen>>,
)
    requires
        assignment_round(w, bs, cs, jobs, cs2, jobs2, trace),
        ids_distinct(jobs),
        held_once(cs),
        held_are_taken(cs, jobs),
    ensures
        held_once(cs2),
        held_are_taken(cs2, jobs2),
        ids_distinct(jobs2),
{
    let n = jobs.len() as int;
    lemma_held_once_prefix(w, bs, cs, jobs, jobs2, trace, n);
    assert(jobs_after(jobs, jobs2, n) =~= jobs2);
    assert forall|a: int, b: int| 0 <= a < jobs2.len() && 0 <= b < jobs2.len() && a != b implies (#[trigger] jobs2[a]).id
        != (#[trigger] jobs2[b]).id by {
        assert(jobs_after(jobs, jobs2, n)[a].id == jobs[a].id);
        assert(jobs_after(jobs, jobs2, n)[b].id == jobs[b].id);
    }
}

/// Job `j` went from open to taken in the round.
pub open spec fn newly_taken(jobs: Seq<Job>, jobs2: Seq<Job>, j: int) -> bool {
    !jobs[j].taken && jobs2[j].taken
}

/// The citizen that job `j` of a round is offered to: the nearest eligible
/// one as the citizens stand before that offer.
pub open spec fn offer_holder(bs: Seq<Building>, trace: Seq<Seq<Citizen>>, jobs: Seq<Job>, j: int) -> int {
    nearest_worker_in(trace[j], bs, anchor(jobs[j].kind), trace[j].len() as int)
}

/// A round leaves where a citizen stands, lives, works and whether it ate.
pub open spec fn same_place(a: Citizen, b: Citizen) -> bool {
    &&& a.pos == b.pos
    &&& a.home == b.home
    &&& a.workplace == b.workplace
    &&& a.fed_today == b.fed_today
}

proof fn lemma_assignment_prefix_law(
    w: World,
    bs: Seq<Building>,
    cs: Seq<Citizen>,
    jobs: Seq<Job>,
    jobs2: Seq<Job>,
    trace: Seq<Seq<Citizen>>,
    t: int,
)
    requires
        jobs2.len() == jobs.len(),
        trace.len() == jobs.len() + 1,
        trace[0] == cs,
        0 <= t <= jobs.len(),
        forall|j: int| 0 <= j < jobs.len() ==> #[trigger] offer_step(w, bs, trace, jobs, jobs2, j),
    ensures
        trace[t].len() == cs.len(),
        forall|k: int| 0 <= k < cs.len() ==> same_place(cs[k], #[trigger] trace[t][k]),
        forall|k: int|
            0 <= k < cs.len() && (#[trigger] trace[t][k]).assigned_job != cs[k].assigned_job ==> {
                &&& cs[k].assigned_job is None
                &&& exists|j: int|
                    0 <= j < t && #[trigger] newly_taken(jobs, jobs2, j) && k == offer_holder(bs, trace, jobs, j)
                        && trace[t][k].assigned_job == Some(jobs[j].id)
            },
    decreases t,
{
    if t > 0 {
        let s = t - 1;
        lemma_assignment_prefix_law(w, bs, cs, jobs, jobs2, trace, s);
        assert(offer_step(w, bs, trace, jobs, jobs2, s));
        let before = trace[s];
        let after = trace[t];
        let job = jobs[s];
        let i = nearest_worker_in(before, bs, anchor(job.kind), before.len() as int);
        lemma_nearest_worker(before, bs, anchor(job.kind), before.len() as int);
        if job.taken || job.done || i < 0 {
            assert(after == before);
            assert forall|k: int|
                0 <= k < cs.len() && (#[trigger] trace[t][k]).assigned_job != cs[k].assigned_job implies {
                    &&& cs[k].assigned_job is None
                    &&& exists|j: int|
                        0 <= j < t && #[trigger] newly_taken(jobs, jobs2, j) && k == offer_holder(bs, trace, jobs, j)
                            && trace[t][k].assigned_job == Some(jobs[j].id)
                } by {
                assert(trace[s][k] == trace[t][k]);
                let j = choose|j: int|
                    0 <= j < s && #[trigger] newly_taken(jobs, jobs2, j) && k == offer_holder(bs, trace, jobs, j)
                        && trace[s][k].assigned_job == Some(jobs[j].id);
                assert(0 <= j < t && newly_taken(jobs, jobs2, j));
            }
        } else {
            let moved = Citizen {
                progress: if with_job(before[i], job.id).pos == anchor(job.kind) {
                    with_job(before[i], job.id).progress
                } else {
                    0
                },
                ..after[i]
            };
            assert(crate::game::same_but_route(with_job(before[i], job.id), moved));
            assert(after[i].assigned_job == Some(job.id));
            assert(same_place(before[i], after[i]));
            assert(newly_taken(jobs, jobs2, s));
            assert(i == offer_holder(bs, trace, jobs, s));
            assert forall|k: int| 0 <= k < cs.len() implies same_place(cs[k], #[trigger] trace[t][k]) by {
                assert(same_place(cs[k], trace[s][k]));
            }
            assert forall|k: int|
                0 <= k < cs.len() && (#[trigger] trace[t][k]).assigned_job != cs[k].assigned_job implies {
                    &&& cs[k].assigned_job is None
                    &&& exists|j: int|
                        0 <= j < t && #[trigger] newly_taken(jobs, jobs2, j) && k == offer_holder(bs, trace, jobs, j)
                            && trace[t][k].assigned_job == Some(jobs[j].id)
                } by {
                if k == i {
                    if before[i].assigned_job != cs[i].assigned_job {
                        assert(before[i].assigned_job is Some);
                    }
                    assert(cs[k].assigned_job is None);
                } else {
                    assert(trace[s][k] == trace[t][k]);
                    let j = choose|j: int|
                        0 <= j < s && #[trigger] newly_taken(jobs, jobs2, j) && k == offer_holder(bs, trace, jobs, j)
                            && trace[s][k].assigned_job == Some(jobs[j].id);
                    assert(0 <= j < t && newly_taken(jobs, jobs2, j));
                }
            }
        }
    }
}

proof fn lemma_one_holder(
    bs: Seq<Building>,
    cs: Seq<Citizen>,
    jobs: Seq<Job>,
    jobs2: Seq<Job>,
    trace: Seq<Seq<Citizen>>,
    j: int,
)
    requires
        0 <= j < jobs.len(),
        trace.len() == jobs.len() + 1,
        trace[jobs.len() as int].len() == cs.len(),
        newly_taken(jobs, jobs2, j),
        ids_distinct(jobs),
        held_are_taken(cs, jobs),
        forall|k: int|
            0 <= k < cs.len() && (#[trigger] trace[jobs.len() as int][k]).assigned_job != cs[k].assigned_job ==> {
                &&& cs[k].assigned_job is None
                &&& exists|j: int|
                    0 <= j < jobs.len() && #[trigger] newly_taken(jobs, jobs2, j) && k == offer_holder(bs, trace, jobs, j)
                        && trace[jobs.len() as int][k].assigned_job == Some(jobs[j].id)
            },
    ensures
        forall|k1: int, k2: int|
            0 <= k1 < cs.len() && 0 <= k2 < cs.len() && (#[trigger] trace[jobs.len() as int][k1]).assigned_job == Some(
                jobs[j].id,
            ) && (#[trigger] trace[jobs.len() as int][k2]).assigned_job == Some(jobs[j].id) ==> k1 == k2,
{
    let n = jobs.len() as int;
    let cs2 = trace[n];
    assert forall|k1: int, k2: int|
        0 <= k1 < cs.len() && 0 <= k2 < cs.len() && (#[trigger] cs2[k1]).assigned_job == Some(jobs[j].id)
            && (#[trigger] cs2[k2]).assigned_job == Some(jobs[j].id) implies k1 == k2 by {
        if cs[k1].assigned_job == Some(jobs[j].id) {
            assert(jobs[j].taken);
        }
        if cs[k2].assigned_job == Some(jobs[j].id) {
            assert(jobs[j].taken);
        }
        let j1 = choose|j1: int|
            0 <= j1 < n && #[trigger] newly_taken(jobs, jobs2, j1) && k1 == offer_holder(bs, trace, jobs, j1)
                && cs2[k1].assigned_job == Some(jobs[j1].id);
        let j2 = choose|j2: int|
            0 <= j2 < n && #[trigger] newly_taken(jobs, jobs2, j2) && k2 == offer_holder(bs, trace, jobs, j2)
                && cs2[k2].assigned_job == Some(jobs[j2].id);
        assert(jobs[j1].id == jobs[j].id);
        assert(jobs[j2].id == jobs[j].id);
        assert(j1 == j);
        assert(j2 == j);
    }
}

/// What an assignment round does, whole: the jobs keep their ids, kinds and
/// whether they are done, and a taken job stays taken; every citizen keeps
/// where it stands, lives and works and whether it ate; a citizen holding a
/// job keeps it; a citizen whose job changed had none and now holds a job
/// that the round took; and, when job ids are distinct and no citizen holds
/// an open job, every job the round took is held by exactly one citizen,
/// one who had no job before.
pub proof fn lemma_assignment_law(
    w: World,
    bs: Seq<Building>,
    cs: Seq<Citizen>,
    jobs: Seq<Job>,
    cs2: Seq<Citizen>,
    jobs2: Seq<Job>,
    trace: Seq<Seq<Citizen>>,
)
    requires
        assignment_round(w, bs, cs, jobs, cs2, jobs2, trace),
    ensures
        cs2.len() == cs.len(),
        jobs2.len() == jobs.len(),
        forall|j: int|
            0 <= j < jobs.len() ==> (#[trigger] jobs2[j]).id == jobs[j].id && jobs2[j].kind == jobs[j].kind
                && jobs2[j].done == jobs[j].done && (jobs[j].taken ==> jobs2[j].taken),
        forall|k: int| 0 <= k < cs.len() ==> same_place(cs[k], #[trigger] cs2[k]),
        forall|k: int|
            0 <= k < cs.len() && (#[trigger] cs[k]).assigned_job is Some ==> cs2[k].assigned_job == cs[k].assigned_job,
        forall|k: int|
            0 <= k < cs.len() && (#[trigger] cs2[k]).assigned_job != cs[k].assigned_job ==> cs[k].assigned_job is None
                && exists|j: int| 0 <= j < jobs.len() && #[trigger] newly_taken(jobs, jobs2, j) && cs2[k].assigned_job == Some(jobs[j].id),
        ids_distinct(jobs) && held_are_taken(cs, jobs) ==> forall|j: int|
            0 <= j < jobs.len() && #[trigger] newly_taken(jobs, jobs2, j) ==> {
                &&& exists|k: int| 0 <= k < cs.len() && cs[k].assigned_job is None && (#[trigger] cs2[k]).assigned_job == Some(jobs[j].id)
                &&& forall|k1: int, k2: int|
                    0 <= k1 < cs.len() && 0 <= k2 < cs.len() && (#[trigger] cs2[k1]).assigned_job == Some(jobs[j].id)
                        && (#[trigger] cs2[k2]).assigned_job == Some(jobs[j].id) ==> k1 == k2
            },
{
    let n = jobs.len() as int;
    lemma_assignment_pairs(w, bs, cs, jobs, cs2, jobs2, trace);
    lemma_assignment_prefix_law(w, bs, cs, jobs, jobs2, trace, n);
    assert forall|j: int| 0 <= j < jobs.len() implies (#[trigger] jobs2[j]).id == jobs[j].id && jobs2[j].kind
        == jobs[j].kind && jobs2[j].done == jobs[j].done && (jobs[j].taken ==> jobs2[j].taken) by {
        assert(jobs2[j] == jobs[j] || (!jobs[j].taken && !jobs[j].done && jobs2[j] == Job { taken: true, ..jobs[j] }));
    }
    if ids_distinct(jobs) && held_are_taken(cs, jobs) {
        assert forall|j: int| 0 <= j < jobs.len() && #[trigger] newly_taken(jobs, jobs2, j) implies {
            &&& exists|k: int| 0 <= k < cs.len() && cs[k].assigned_job is None && (#[trigger] cs2[k]).assigned_job == Some(jobs[j].id)
            &&& forall|k1: int, k2: int|
                0 <= k1 < cs.len() && 0 <= k2 < cs.len() && (#[trigger] cs2[k1]).assigned_job == Some(jobs[j].id)
                    && (#[trigger] cs2[k2]).assigned_job == Some(jobs[j].id) ==> k1 == k2
        } by {
            lemma_one_holder(bs, cs, jobs, jobs2, trace, j);
        }
    }
    assert forall|k: int| 0 <= k < cs.len() && (#[trigger] cs2[k]).assigned_job != cs[k].assigned_job implies cs[k].assigned_job is None
        && exists|j: int| 0 <= j < jobs.len() && #[trigger] newly_taken(jobs, jobs2, j) && cs2[k].assigned_job == Some(jobs[j].id) by {
        assert(trace[n] == cs2);
        assert(trace[n][k].assigned_job != cs[k].assigned_job);
    }
}

/// Offer one job to the nearest eligible citizen; returns the job as it
/// stands afterwards.
pub fn offer_job(citizens: &mut Vec<Citizen>, job: Job, world: &World, buildings: &Vec<Building>) -> (r:
    Job)
    ensures
        job_offered(*world, buildings@, old(citizens)@, job, final(citizens)@, r),
{
    if job.taken || job.done {
        return job;
    }
    let target = job_anchor(&job.kind);
    match nearest_wood_worker(citizens, buildings, target) {
        Some(i) => {
            let ghost before = citizens@;
            citizens[i].assigned_job = Some(job.id);
            if citizens[i].state == CitizenState::Idle || citizens[i].state == CitizenState::GoingToWork {
                citizens[i].state = CitizenState::Working;
            }
            let ghost mid = citizens@[i as int];
            plan_path(world, &mut citizens[i], target);
            if citizens[i].pos == target {
                citizens[i].moving = false;
                citizens[i].progress = 0;
            }
            proof {
                assert(mid == with_job(before[i as int], job.id));
                assert forall|k: int| 0 <= k < before.len() && k != i implies citizens@[k] == before[k] by {}
            }
            Job { taken: true, ..job }
        },
        None => job,
    }
}

/// Offer every open job, in order, to the nearest free lumberjack.
pub fn assign_jobs_nearest_worker(
    citizens: &mut Vec<Citizen>,
    jobs: &mut Vec<Job>,
    world: &World,
    buildings: &Vec<Building>,
)
    ensures
        exists|trace: Seq<Seq<Citizen>>|
            #[trigger] assignment_round(
                *world,
                buildings@,
                old(citizens)@,
                old(jobs)@,
                final(citizens)@,
                final(jobs)@,
                trace,
            ),
{
    let ghost cs0 = citizens@;
    let ghost jobs0 = jobs@;
    let ghost mut trace: Seq<Seq<Citizen>> = seq![citizens@];
    let mut j: usize = 0;
    while j < jobs.len()
        invariant
            j <= jobs.len(),
            jobs.len() == jobs0.len(),
            trace.len() == j + 1,
            trace[0] == cs0,
            trace[j as int] == citizens@,
            forall|k: int| j <= k < jobs.len() ==> jobs@[k] == jobs0[k],
            forall|k: int|
                0 <= k < j ==> #[trigger] offer_step(*world, buildings@, trace, jobs0, jobs@, k),
        decreases jobs.len() - j,
    {
        let ghost before = citizens@;
        let ghost jobs_before = jobs@;
        let job = jobs[j];
        let job2 = offer_job(citizens, job, world, buildings);
        jobs.set(j, job2);
        proof {
            let old_trace = trace;
            trace = trace.push(citizens@);
            assert(job_offered(*world, buildings@, before, jobs0[j as int], citizens@, jobs@[j as int]));
            assert forall|k: int| 0 <= k <= j implies #[trigger] offer_step(
                *world,
                buildings@,
                trace,
                jobs0,
                jobs@,
                k,
            ) by {
                if k < j {
                    assert(offer_step(*world, buildings@, old_trace, jobs0, jobs_before, k));
                    assert(trace[k] == old_trace[k]);
                    assert(trace[k + 1] == old_trace[k + 1]);
                }
            }
        }
        j += 1;
    }
    proof {
        assert(assignment_round(
            *world,
            buildings@,
            cs0,
            jobs0,
            citizens@,
            jobs@,
            trace,
        ));
    }
}

// ---------------------------------------------------------------- progress

/// First index at or after `i` of a job with this id, or -1.
pub open spec fn job_index_from(jobs: Seq<Job>, id: u64, i: int) -> int
    decreases jobs.len() - i,
{
    if i < 0 || i >= jobs.len() {
        -1
    } else if jobs[i].id == id {
        i
    } else {
        job_index_from(jobs, id, i + 1)
    }
}

pub proof fn lemma_job_index(jobs: Seq<Job>, id: u64, i: int)
    requires
        0 <= i <= jobs.len(),
    ensures
        -1 <= job_index_from(jobs, id, i) < jobs.len(),
        job_index_from(jobs, id, i) >= 0 ==> i <= job_index_from(jobs, id, i) && jobs[job_index_from(
            jobs,
            id,
            i,
        )].id == id,
        job_index_from(jobs, id, i) == -1 <==> forall|k: int| i <= k < jobs.len() ==> jobs[k].id != id,
    decreases jobs.len() - i,
{
    if i < jobs.len() {
        lemma_job_index(jobs, id, i + 1);
    }
}

/// The first job with an id comes no later than any job with it.
pub proof fn lemma_job_index_le(jobs: Seq<Job>, id: u64, i: int, q: int)
    requires
        0 <= i <= q < jobs.len(),
        jobs[q].id == id,
    ensures
        i <= job_index_from(jobs, id, i) <= q,
    decreases q - i,
{
    if jobs[i].id != id {
        lemma_job_index_le(jobs, id, i + 1, q);
    }
}

/// The first index depends on the ids alone.
pub proof fn lemma_job_index_ids(a: Seq<Job>, b: Seq<Job>, id: u64, i: int)
    requires
        a.len() == b.len(),
        forall|k: int| 0 <= k < a.len() ==> #[trigger] a[k].id == b[k].id,
    ensures
        job_index_from(a, id, i) == job_index_from(b, id, i),
    decreases a.len() - i,
{
    if 0 <= i < a.len() {
        lemma_job_index_ids(a, b, id, i + 1);
    }
}

/// Index of the first job with this id.
pub fn find_job(jobs: &Vec<Job>, id: u64) -> (r: Option<usize>)
    ensures
        match r {
            Some(i) => i == job_index_from(jobs@, id, 0) && i < jobs.len(),
            None => job_index_from(jobs@, id, 0) == -1,
        },
{
    let mut i: usize = 0;
    while i < jobs.len()
        invariant
            i <= jobs.len(),
            job_index_from(jobs@, id, 0) == job_index_from(jobs@, id, i as int),
        decreases jobs.len() - i,
    {
        if jobs[i].id == id {
            return Some(i);
        }
        i += 1;
    }
    None
}

/// Index of the first log at or after `i` that lies on `p` and is not
/// carried, or -1.
pub open spec fn free_log_from(logs: Seq<LogItem>, p: Pos, i: int) -> int
    decreases logs.len() - i,
{
    if i < 0 || i >= logs.len() {
        -1
    } else if logs[i].pos == p && !logs[i].carried {
        i
    } else {
        free_log_from(logs, p, i + 1)
    }
}

pub fn find_free_log(logs: &Vec<LogItem>, p: Pos) -> (r: Option<usize>)
    ensures
        match r {
            Some(i) => i == free_log_from(logs@, p, 0) && i < logs.len(),
            None => free_log_from(logs@, p, 0) == -1,
        },
{
    let mut i: usize = 0;
    while i < logs.len()
        invariant
            i <= logs.len(),
            free_log_from(logs@, p, 0) == free_log_from(logs@, p, i as int),
        decreases logs.len() - i,
    {
        if logs[i].pos == p && !logs[i].carried {
            return Some(i);
        }
        i += 1;
    }
    None
}

/// Index of the first warehouse at or after `i` standing on `p`, or -1.
pub open spec fn warehouse_from(ws: Seq<WarehouseStore>, p: Pos, i: int) -> int
    decreases ws.len() - i,
{
    if i < 0 || i >= ws.len() {
        -1
    } else if ws[i].pos == p {
        i
    } else {
        warehouse_from(ws, p, i + 1)
    }
}

pub proof fn lemma_warehouse_from(ws: Seq<WarehouseStore>, p: Pos, i: int)
    requires
        0 <= i <= ws.len(),
    ensures
        -1 <= warehouse_from(ws, p, i) < ws.len(),
        warehouse_from(ws, p, i) >= 0 ==> ws[warehouse_from(ws, p, i)].pos == p,
    decreases ws.len() - i,
{
    if i < ws.len() {
        lemma_warehouse_from(ws, p, i + 1);
    }
}

pub fn find_warehouse(warehouses: &Vec<WarehouseStore>, p: Pos) -> (r: Option<usize>)
    ensures
        match r {
            Some(i) => i == warehouse_from(warehouses@, p, 0) && i < warehouses.len(),
            None => warehouse_from(warehouses@, p, 0) == -1,
        },
{
    let mut i: usize = 0;
    while i < warehouses.len()
        invariant
            i <= warehouses.len(),
            warehouse_from(warehouses@, p, 0) == warehouse_from(warehouses@, p, i as int),
        decreases warehouses.len() - i,
    {
        if warehouses[i].pos == p {
            return Some(i);
        }
        i += 1;
    }
    None
}

/// Everything a round of job work reads and changes besides the citizens.
pub struct JobBoard {
    pub jobs: Seq<Job>,
    pub logs: Seq<LogItem>,
    pub warehouses: Seq<WarehouseStore>,
    pub world: World,
    pub next_job_id: u64,
}

pub open spec fn board(
    jobs: Seq<Job>,
    logs: Seq<LogItem>,
    warehouses: Seq<WarehouseStore>,
    world: World,
    next_job_id: u64,
) -> JobBoard {
    JobBoard { jobs, logs, warehouses, world, next_job_id }
}

/// The citizen without its job.
pub open spec fn unassigned(c: Citizen) -> Citizen {
    Citizen { assigned_job: None, ..c }
}

pub open spec fn finished(j: Job) -> Job {
    Job { done: true, ..j }
}

/// `w2` is `w` with the tree at `p` gone and nothing else changed.
pub open spec fn felled(w: World, w2: World, p: Pos) -> bool {
    &&& w2.tiles == w.tiles
    &&& w2.biomes == w.biomes
    &&& w2.roads == w.roads
    &&& w2.occupied == w.occupied
    &&& w2.trees@ == w.trees@.filter(not_at::<u8>(p))
}

/// A citizen at the tree of job `jid` fells it when it is at least young:
/// the log falls, the job is done and, when there is a warehouse, a hauling
/// job from the stump to the nearest one is published. A sapling or a
/// missing tree only ends the job.
pub open spec fn chop_done(b: JobBoard, jid: int, pos: Pos, b2: JobBoard) -> bool {
    let stage = b.world.tree_at(pos);
    if stage is Some && stage->0 >= 1 {
        &&& felled(b.world, b2.world, pos)
        &&& b2.logs == b.logs.push(LogItem { pos, carried: false })
        &&& b2.warehouses == b.warehouses
        &&& match nearest_warehouse(b.warehouses, pos) {
            Some(dst) => {
                &&& b2.jobs == b.jobs.update(jid, finished(b.jobs[jid])).push(
                    Job {
                        id: b.next_job_id,
                        kind: JobKind::HaulWood { from: pos, to: dst },
                        taken: false,
                        done: false,
                    },
                )
                &&& b2.next_job_id == b.next_job_id + 1
            },
            None => b2.jobs == b.jobs.update(jid, finished(b.jobs[jid])) && b2.next_job_id
                == b.next_job_id,
        }
    } else {
        b2 == JobBoard { jobs: b.jobs.update(jid, finished(b.jobs[jid])), ..b }
    }
}

/// One turn on a felling job at `pos`.
pub open spec fn chop_turn(b: JobBoard, c: Citizen, jid: int, pos: Pos, b2: JobBoard, c2: Citizen) -> bool {
    if !c.moving && c.pos == pos {
        chop_done(b, jid, pos, b2) && c2 == unassigned(c)
    } else if !c.moving {
        b2 == b && route_planned(b.world, c, c2, pos)
    } else {
        b2 == b && c2 == c
    }
}

/// One turn on a hauling job from `from` to `to`: pick the log up and head
/// for the warehouse, or deliver it there, or walk on.
pub open spec fn haul_turn(
    b: JobBoard,
    c: Citizen,
    jid: int,
    from: Pos,
    to: Pos,
    b2: JobBoard,
    c2: Citizen,
) -> bool {
    if !c.carrying_log {
        if !c.moving && c.pos == from {
            let li = free_log_from(b.logs, from, 0);
            if li >= 0 {
                &&& b2 == JobBoard { logs: b.logs.remove(li), ..b }
                &&& route_planned(b.world, Citizen { carrying_log: true, ..c }, c2, to)
            } else {
                &&& b2 == JobBoard { jobs: b.jobs.update(jid, finished(b.jobs[jid])), ..b }
                &&& c2 == unassigned(c)
            }
        } else if !c.moving {
            b2 == b && route_planned(b.world, c, c2, from)
        } else {
            b2 == b && c2 == c
        }
    } else {
        if !c.moving && c.pos == to {
            let wi = warehouse_from(b.warehouses, to, 0);
            &&& b2 == JobBoard {
                jobs: b.jobs.update(jid, finished(b.jobs[jid])),
                warehouses: if wi >= 0 {
                    b.warehouses.update(
                        wi,
                        WarehouseStore { wood: (b.warehouses[wi].wood + 1) as i32, ..b.warehouses[wi] },
                    )
                } else {
                    b.warehouses
                },
                ..b
            }
            &&& c2 == Citizen { carrying_log: false, assigned_job: None, ..c }
        } else if !c.moving {
            b2 == b && route_planned(b.world, c, c2, to)
        } else {
            b2 == b && c2 == c
        }
    }
}

/// One citizen's turn on the job it holds; a citizen whose job is gone
/// lets go of it.
pub open spec fn job_turn(b: JobBoard, c: Citizen, b2: JobBoard, c2: Citizen) -> bool {
    match c.assigned_job {
        None => b2 == b && c2 == c,
        Some(id) => {
            let jid = job_index_from(b.jobs, id, 0);
            if jid < 0 {
                b2 == b && c2 == unassigned(c)
            } else {
                match b.jobs[jid].kind {
                    JobKind::ChopWood { pos } => chop_turn(b, c, jid, pos, b2, c2),
                    JobKind::HaulWood { from, to } => haul_turn(b, c, jid, from, to, b2, c2),
                }
            }
        }
    }
}

/// A citizen standing still at `p` with a log: the only one whose turn may
/// hand a log in to a warehouse at `p`.
pub open spec fn may_deliver_at(c: Citizen, p: Pos) -> bool {
    c.carrying_log && !c.moving && c.pos == p
}

/// A citizen standing still with a job: the only kind whose turn may
/// publish a new job.
pub open spec fn may_publish(c: Citizen) -> bool {
    c.assigned_job is Some && !c.moving
}

/// How many of the citizens may hand a log in at `p`.
pub open spec fn deliveries_at(cs: Seq<Citizen>, p: Pos) -> int
    decreases cs.len(),
{
    if cs.len() == 0 {
        0
    } else {
        deliveries_at(cs.drop_last(), p) + if may_deliver_at(cs.last(), p) {
            1int
        } else {
            0
        }
    }
}

/// How many of the citizens may publish a job.
pub open spec fn publishers(cs: Seq<Citizen>) -> int
    decreases cs.len(),
{
    if cs.len() == 0 {
        0
    } else {
        publishers(cs.drop_last()) + if may_publish(cs.last()) {
            1int
        } else {
            0
        }
    }
}

proof fn lemma_counts_prefix(cs: Seq<Citizen>, p: Pos, i: int)
    requires
        0 <= i <= cs.len(),
    ensures
        0 <= deliveries_at(cs.take(i), p) <= deliveries_at(cs, p),
        0 <= publishers(cs.take(i)) <= publishers(cs),
        i < cs.len() ==> deliveries_at(cs.take(i + 1), p) == deliveries_at(cs.take(i), p) + if may_deliver_at(
            cs[i],
            p,
        ) {
            1int
        } else {
            0
        },
        i < cs.len() ==> publishers(cs.take(i + 1)) == publishers(cs.take(i)) + if may_publish(cs[i]) {
            1int
        } else {
            0
        },
    decreases cs.len(),
{
    if i < cs.len() {
        assert(cs.take(i + 1).drop_last() =~= cs.take(i));
    }
    if i == cs.len() {
        assert(cs.take(i) =~= cs);
        if cs.len() > 0 {
            lemma_counts_prefix(cs.drop_last(), p, i - 1);
        }
    } else {
        lemma_counts_prefix(cs.drop_last(), p, i);
        assert(cs.drop_last().take(i) =~= cs.take(i));
        lemma_counts_prefix(cs.drop_last(), p, cs.len() - 1);
    }
}

/// The turn neither publishes a job with the last id nor hands a log in to
/// a warehouse already full to the brim.
pub open spec fn turn_fits(b: JobBoard, c: Citizen) -> bool {
    match c.assigned_job {
        None => true,
        Some(id) => {
            let jid = job_index_from(b.jobs, id, 0);
            jid < 0 || match b.jobs[jid].kind {
                JobKind::ChopWood { pos } => !(!c.moving && c.pos == pos) || b.next_job_id < u64::MAX,
                JobKind::HaulWood { to, .. } => {
                    let wi = warehouse_from(b.warehouses, to, 0);
                    !may_deliver_at(c, to) || wi < 0 || b.warehouses[wi].wood < i32::MAX
                },
            }
        }
    }
}

/// Work one turn on the citizen's job.
pub fn work_on_job(
    c: &mut Citizen,
    jobs: &mut Vec<Job>,
    logs: &mut Vec<LogItem>,
    warehouses: &mut Vec<WarehouseStore>,
    world: &mut World,
    next_job_id: &mut u64,
)
    requires
        turn_fits(board(old(jobs)@, old(logs)@, old(warehouses)@, *old(world), *old(next_job_id)), *old(c)),
    ensures
        job_turn(
            board(old(jobs)@, old(logs)@, old(warehouses)@, *old(world), *old(next_job_id)),
            *old(c),
            board(final(jobs)@, final(logs)@, final(warehouses)@, *final(world), *final(next_job_id)),
            *final(c),
        ),
{
    let job_id = match c.assigned_job {
        Some(id) => id,
        None => return ,
    };
    let jid = match find_job(jobs, job_id) {
        Some(i) => i,
        None => {
            c.assigned_job = None;
            return ;
        },
    };
    let job = jobs[jid];
    match job.kind {
        JobKind::ChopWood { pos } => {
            if !c.moving && c.pos == pos {
                let felling = match world.tree_stage(pos) {
                    Some(stage) => stage >= 1,
                    None => false,
                };
                if felling {
                    world.remove_tree(pos);
                    logs.push(LogItem { pos, carried: false });
                    jobs.set(jid, Job { done: true, ..job });
                    if let Some(dst) = find_nearest_warehouse(warehouses, pos) {
                        let id = *next_job_id;
                        *next_job_id = id + 1;
                        jobs.push(
                            Job {
                                id,
                                kind: JobKind::HaulWood { from: pos, to: dst },
                                taken: false,
                                done: false,
                            },
                        );
                    }
                } else {
                    jobs.set(jid, Job { done: true, ..job });
                }
                c.assigned_job = None;
            } else if !c.moving {
                plan_path(world, c, pos);
            }
        },
        JobKind::HaulWood { from, to } => {
            if !c.carrying_log {
                if !c.moving && c.pos == from {
                    match find_free_log(logs, from) {
                        Some(idx) => {
                            logs.remove(idx);
                            c.carrying_log = true;
                            plan_path(world, c, to);
                        },
                        None => {
                            jobs.set(jid, Job { done: true, ..job });
                            c.assigned_job = None;
                        },
                    }
                } else if !c.moving {
                    plan_path(world, c, from);
                }
            } else {
                if !c.moving && c.pos == to {
                    if let Some(wi) = find_warehouse(warehouses, to) {
                        let mut w = warehouses[wi];
                        w.wood = w.wood + 1;
                        warehouses.set(wi, w);
                    }
                    jobs.set(jid, Job { done: true, ..job });
                    c.carrying_log = false;
                    c.assigned_job = None;
                } else if !c.moving {
                    plan_path(world, c, to);
                }
            }
        },
    }
}

// ---------------------------------------------------------------- round

/// Job `k` is taken and open, yet no citizen holds it.
pub open spec fn orphaned(jobs: Seq<Job>, cs: Seq<Citizen>, k: int) -> bool {
    &&& jobs[k].taken
    &&& !jobs[k].done
    &&& forall|i: int| 0 <= i < cs.len() ==> #[trigger] cs[i].assigned_job != Some(jobs[k].id)
}

/// Some job among the first `n` that carries this id is orphaned.
pub open spec fn orphaned_id(jobs: Seq<Job>, cs: Seq<Citizen>, id: u64, n: int) -> bool
    decreases n,
{
    if n <= 0 {
        false
    } else {
        (jobs[n - 1].id == id && orphaned(jobs, cs, n - 1)) || orphaned_id(jobs, cs, id, n - 1)
    }
}

/// The jobs with every orphaned id freed again: the first job carrying such
/// an id is no longer taken.
pub open spec fn released(jobs: Seq<Job>, cs: Seq<Citizen>) -> Seq<Job> {
    Seq::new(
        jobs.len(),
        |k: int|
            if job_index_from(jobs, jobs[k].id, 0) == k && orphaned_id(
                jobs,
                cs,
                jobs[k].id,
                jobs.len() as int,
            ) {
                Job { taken: false, ..jobs[k] }
            } else {
                jobs[k]
            },
    )
}

proof fn lemma_orphaned_id_has_job(jobs: Seq<Job>, cs: Seq<Citizen>, id: u64, n: int)
    requires
        0 <= n <= jobs.len(),
    ensures
        orphaned_id(jobs, cs, id, n) <==> exists|m: int| 0 <= m < n && jobs[m].id == id && #[trigger] orphaned(jobs, cs, m),
    decreases n,
{
    if n > 0 {
        lemma_orphaned_id_has_job(jobs, cs, id, n - 1);
        if orphaned_id(jobs, cs, id, n) {
            if jobs[n - 1].id == id && orphaned(jobs, cs, n - 1) {
                assert(0 <= n - 1 < n && jobs[n - 1].id == id && orphaned(jobs, cs, n - 1));
            }
        }
    }
}

/// With distinct job ids, releasing frees exactly the orphaned jobs: no job
/// is left taken and open without a holder, and every other job stays as
/// it was.
pub proof fn lemma_release_frees_orphans(jobs: Seq<Job>, cs: Seq<Citizen>)
    requires
        ids_distinct(jobs),
    ensures
        released(jobs, cs).len() == jobs.len(),
        forall|k: int| 0 <= k < jobs.len() ==> !#[trigger] orphaned(released(jobs, cs), cs, k),
        forall|k: int| 0 <= k < jobs.len() ==> (#[trigger] released(jobs, cs)[k] == jobs[k]) == !orphaned(jobs, cs, k),
{
    let r = released(jobs, cs);
    assert forall|k: int| 0 <= k < jobs.len() implies (#[trigger] released(jobs, cs)[k] == jobs[k]) == !orphaned(
        jobs,
        cs,
        k,
    ) && !orphaned(released(jobs, cs), cs, k) by {
        let id = jobs[k].id;
        assert forall|q: int| 0 <= q < k implies #[trigger] jobs[q].id != id by {
            assert(jobs[q].id != jobs[k].id);
        }
        lemma_job_index_first(jobs, id, k);
        lemma_orphaned_id_has_job(jobs, cs, id, jobs.len() as int);
        if orphaned(jobs, cs, k) {
            assert(orphaned_id(jobs, cs, id, jobs.len() as int));
            assert(r[k] == Job { taken: false, ..jobs[k] });
        } else if orphaned_id(jobs, cs, id, jobs.len() as int) {
            let m = choose|m: int| 0 <= m < jobs.len() && jobs[m].id == id && #[trigger] orphaned(jobs, cs, m);
            assert(m == k);
        }
    }
}

/// Whether some citizen holds job `id`.
pub fn held_by_someone(citizens: &Vec<Citizen>, id: u64) -> (r: bool)
    ensures
        !r == forall|i: int| 0 <= i < citizens.len() ==> #[trigger] citizens@[i].assigned_job != Some(id),
{
    let mut i: usize = 0;
    while i < citizens.len()
        invariant
            i <= citizens.len(),
            forall|m: int| 0 <= m < i ==> #[trigger] citizens@[m].assigned_job != Some(id),
        decreases citizens.len() - i,
    {
        if citizens[i].assigned_job == Some(id) {
            return true;
        }
        i += 1;
    }
    false
}

/// Free the jobs that are marked taken although nobody holds them.
pub fn release_orphaned_jobs(jobs: &mut Vec<Job>, citizens: &Vec<Citizen>)
    ensures
        final(jobs)@ == released(old(jobs)@, citizens@),
{
    let ghost jobs0 = jobs@;
    let ghost cs = citizens@;
    let n = jobs.len();
    // (id, orphaned) of every job, read before anything changes
    let mut marks: Vec<(u64, bool)> = Vec::new();
    let mut k: usize = 0;
    while k < n
        invariant
            k <= n,
            n == jobs.len(),
            jobs@ == jobs0,
            cs == citizens@,
            marks.len() == k,
            forall|m: int| 0 <= m < k ==> #[trigger] marks@[m] == (jobs0[m].id, orphaned(jobs0, cs, m)),
        decreases n - k,
    {
        let j = jobs[k];
        let orphan = j.taken && !j.done && !held_by_someone(citizens, j.id);
        marks.push((j.id, orphan));
        k += 1;
    }
    let mut k: usize = 0;
    while k < n
        invariant
            k <= n,
            n == jobs.len(),
            n == jobs0.len(),
            marks.len() == n,
            forall|m: int| 0 <= m < n ==> #[trigger] marks@[m] == (jobs0[m].id, orphaned(jobs0, cs, m)),
            forall|m: int| 0 <= m < k ==> #[trigger] jobs@[m] == released(jobs0, cs)[m],
            forall|m: int| k <= m < n ==> #[trigger] jobs@[m] == jobs0[m],
        decreases n - k,
    {
        let id = marks[k].0;
        // is `k` the first job with this id?
        let mut first = true;
        let mut m: usize = 0;
        while m < k
            invariant
                m <= k < n,
                marks.len() == n,
                forall|q: int| 0 <= q < n ==> #[trigger] marks@[q] == (jobs0[q].id, orphaned(jobs0, cs, q)),
                id == jobs0[k as int].id,
                first == forall|q: int| 0 <= q < m ==> #[trigger] jobs0[q].id != id,
            decreases k - m,
        {
            if marks[m].0 == id {
                first = false;
            }
            m += 1;
        }
        // is the id orphaned anywhere?
        let mut orphan = false;
        let mut m: usize = 0;
        while m < n
            invariant
                m <= n,
                k < n,
                marks.len() == n,
                forall|q: int| 0 <= q < n ==> #[trigger] marks@[q] == (jobs0[q].id, orphaned(jobs0, cs, q)),
                orphan == orphaned_id(jobs0, cs, id, m as int),
            decreases n - m,
        {
            if marks[m].1 && marks[m].0 == id {
                orphan = true;
            }
            m += 1;
        }
        proof {
            lemma_job_index(jobs0, id, 0);
            if first {
                assert(job_index_from(jobs0, id, 0) == k) by {
                    lemma_job_index_first(jobs0, id, k as int);
                }
            } else {
                let q = choose|q: int| 0 <= q < k && #[trigger] jobs0[q].id == id;
                lemma_job_index_le(jobs0, id, 0, q);
            }
            assert(orphan == orphaned_id(jobs0, cs, jobs0[k as int].id, jobs0.len() as int));
        }
        let ghost jobs_before = jobs@;
        if first && orphan {
            let j = jobs[k];
            jobs.set(k, Job { taken: false, ..j });
        }
        proof {
            assert(jobs@[k as int] == released(jobs0, cs)[k as int]);
            assert forall|m: int| 0 <= m < k + 1 implies #[trigger] jobs@[m] == released(jobs0, cs)[m] by {
                if m < k {
                    assert(jobs_before[m] == released(jobs0, cs)[m]);
                }
            }
        }
        k += 1;
    }
    proof {
        assert(jobs@ =~= released(jobs0, cs));
    }
}

/// When no job before `k` carries the id of job `k`, `k` is the first.
pub proof fn lemma_job_index_first(jobs: Seq<Job>, id: u64, k: int)
    requires
        0 <= k < jobs.len(),
        jobs[k].id == id,
        forall|q: int| 0 <= q < k ==> #[trigger] jobs[q].id != id,
    ensures
        job_index_from(jobs, id, 0) == k,
{
    lemma_job_index_skip(jobs, id, 0, k);
}

proof fn lemma_job_index_skip(jobs: Seq<Job>, id: u64, i: int, k: int)
    requires
        0 <= i <= k < jobs.len(),
        jobs[k].id == id,
        forall|q: int| i <= q < k ==> #[trigger] jobs[q].id != id,
    ensures
        job_index_from(jobs, id, i) == k,
    decreases k - i,
{
    if i < k {
        lemma_job_index_skip(jobs, id, i + 1, k);
    }
}

/// Whether a job is still open.
pub open spec fn still_open() -> spec_fn(Job) -> bool {
    |j: Job| !j.done
}

/// Drop the finished jobs, keeping the order of the others.
pub fn drop_finished_jobs(jobs: &mut Vec<Job>)
    ensures
        final(jobs)@ == old(jobs)@.filter(still_open()),
{
    let ghost pred = still_open();
    let mut kept: Vec<Job> = Vec::new();
    let mut i: usize = 0;
    while i < jobs.len()
        invariant
            i <= jobs.len(),
            pred == still_open(),
            kept@ == jobs@.take(i as int).filter(pred),
        decreases jobs.len() - i,
    {
        let j = jobs[i];
        proof {
            reveal(Seq::filter);
            assert(jobs@.take(i + 1).drop_last() =~= jobs@.take(i as int));
            assert(jobs@.take(i + 1).last() == j);
            assert(jobs@.take(i + 1).filter(pred) == if pred(j) {
                jobs@.take(i as int).filter(pred).push(j)
            } else {
                jobs@.take(i as int).filter(pred)
            });
        }
        if !j.done {
            kept.push(j);
        }
        i += 1;
    }
    proof {
        assert(jobs@.take(jobs.len() as int) =~= jobs@);
    }
    *jobs = kept;
}

/// After a round: a citizen whose job is gone is freed and, when standing
/// away from its workplace, sent back there; a working citizen with no job,
/// standing empty-handed away from its workplace, is sent back too.
pub open spec fn back_to_work(w: World, jobs: Seq<Job>, c: Citizen, c2: Citizen) -> bool {
    match c.assigned_job {
        Some(id) => if job_index_from(jobs, id, 0) < 0 {
            if c.workplace is Some && c.pos != c.workplace->0 && !c.moving {
                route_planned(w, unassigned(c), c2, c.workplace->0)
            } else {
                c2 == unassigned(c)
            }
        } else {
            c2 == c
        },
        None => if c.state == CitizenState::Working && c.workplace is Some && c.pos
            != c.workplace->0 && !c.moving && !c.carrying_log {
            route_planned(w, c, c2, c.workplace->0)
        } else {
            c2 == c
        },
    }
}

/// Free a citizen whose job is gone and send idle workers back to their
/// workplace.
pub fn return_to_workplace(c: &mut Citizen, jobs: &Vec<Job>, world: &World)
    ensures
        back_to_work(*world, jobs@, *old(c), *final(c)),
{
    match c.assigned_job {
        Some(id) => {
            if find_job(jobs, id).is_none() {
                c.assigned_job = None;
                if let Some(wp) = c.workplace {
                    if c.pos != wp && !c.moving {
                        plan_path(world, c, wp);
                    }
                }
            }
        },
        None => {
            if c.state == CitizenState::Working {
                if let Some(wp) = c.workplace {
                    if c.pos != wp && !c.moving && !c.carrying_log {
                        plan_path(world, c, wp);
                    }
                }
            }
        },
    }
}

/// Turn `i` of a round: citizen `i` works on its job on the board as the
/// citizens before it left it.
pub open spec fn turn_step(boards: Seq<JobBoard>, cs: Seq<Citizen>, mid: Seq<Citizen>, i: int) -> bool {
    job_turn(boards[i], cs[i], boards[i + 1], mid[i])
}

/// A whole round of job work: orphaned jobs are freed, every citizen takes
/// its turn in order (`boards[i]` is the board before citizen `i`, `mid`
/// the citizens after their turns), finished jobs are dropped, and idle
/// workers head back to their workplaces.
pub open spec fn job_round(
    cs: Seq<Citizen>,
    b: JobBoard,
    cs2: Seq<Citizen>,
    b2: JobBoard,
    boards: Seq<JobBoard>,
    mid: Seq<Citizen>,
) -> bool {
    let n = cs.len() as int;
    &&& boards.len() == n + 1
    &&& mid.len() == n
    &&& cs2.len() == n
    &&& boards[0] == JobBoard { jobs: released(b.jobs, cs), ..b }
    &&& forall|i: int| 0 <= i < n ==> #[trigger] turn_step(boards, cs, mid, i)
    &&& b2 == JobBoard { jobs: boards[n].jobs.filter(still_open()), ..boards[n] }
    &&& forall|i: int| 0 <= i < n ==> back_to_work(b2.world, b2.jobs, #[trigger] mid[i], cs2[i])
}

/// A turn publishes at most one job, and only when the citizen stands still
/// with a job; it brings at most one log to a warehouse, only to one at the
/// citizen's tile when it stands still with a log; no warehouse moves.
pub proof fn lemma_turn_bounds(b: JobBoard, c: Citizen, b2: JobBoard, c2: Citizen)
    requires
        job_turn(b, c, b2, c2),
    ensures
        b.next_job_id <= b2.next_job_id <= b.next_job_id + 1,
        b2.next_job_id != b.next_job_id ==> may_publish(c),
        b2.warehouses.len() == b.warehouses.len(),
        forall|k: int|
            0 <= k < b.warehouses.len() ==> #[trigger] b2.warehouses[k].wood <= b.warehouses[k].wood + 1
                && b2.warehouses[k].pos == b.warehouses[k].pos && (b2.warehouses[k].wood != b.warehouses[k].wood
                ==> may_deliver_at(c, b.warehouses[k].pos)),
{
    if let Some(id) = c.assigned_job {
        let jid = job_index_from(b.jobs, id, 0);
        if jid >= 0 {
            if let JobKind::HaulWood { from, to } = b.jobs[jid].kind {
                if c.carrying_log && !c.moving && c.pos == to {
                    lemma_warehouse_from(b.warehouses, to, 0);
                    let wi = warehouse_from(b.warehouses, to, 0);
                    assert forall|k: int| 0 <= k < b.warehouses.len() implies #[trigger] b2.warehouses[k].wood
                        <= b.warehouses[k].wood + 1 && b2.warehouses[k].pos == b.warehouses[k].pos && (
                    b2.warehouses[k].wood != b.warehouses[k].wood ==> may_deliver_at(c, b.warehouses[k].pos)) by {
                        if wi >= 0 && k == wi {
                        } else {
                            assert(b2.warehouses[k] == b.warehouses[k]);
                        }
                    }
                }
            }
        }
    }
}

/// After a round of job work no finished job is left on the board, and no
/// citizen holds the id of a job that is no longer there.
pub proof fn lemma_round_leaves_no_stale_jobs(
    cs: Seq<Citizen>,
    b: JobBoard,
    cs2: Seq<Citizen>,
    b2: JobBoard,
    boards: Seq<JobBoard>,
    mid: Seq<Citizen>,
)
    requires
        job_round(cs, b, cs2, b2, boards, mid),
    ensures
        forall|j: int| 0 <= j < b2.jobs.len() ==> !(#[trigger] b2.jobs[j]).done,
        forall|i: int|
            0 <= i < cs2.len() && (#[trigger] cs2[i]).assigned_job is Some ==> job_index_from(
                b2.jobs,
                cs2[i].assigned_job->0,
                0,
            ) >= 0,
{
    let n = cs.len() as int;
    assert forall|j: int| 0 <= j < b2.jobs.len() implies !(#[trigger] b2.jobs[j]).done by {
        boards[n].jobs.lemma_filter_pred(still_open(), j);
    }
    assert forall|i: int| 0 <= i < cs2.len() && (#[trigger] cs2[i]).assigned_job is Some implies job_index_from(
        b2.jobs,
        cs2[i].assigned_job->0,
        0,
    ) >= 0 by {
        assert(back_to_work(b2.world, b2.jobs, mid[i], cs2[i]));
    }
}

fn count_publishers(cs: &Vec<Citizen>) -> (r: u64)
    ensures
        r == publishers(cs@),
{
    let mut r: u64 = 0;
    let mut i: usize = 0;
    while i < cs.len()
        invariant
            i <= cs.len(),
            r == publishers(cs@.take(i as int)),
            r <= i,
        decreases cs.len() - i,
    {
        proof {
            lemma_counts_prefix(cs@, Pos { x: 0, y: 0 }, i as int);
        }
        if cs[i].assigned_job.is_some() && !cs[i].moving {
            r = r + 1;
        }
        i += 1;
    }
    proof {
        assert(cs@.take(cs.len() as int) =~= cs@);
    }
    r
}

fn count_deliveries(cs: &Vec<Citizen>, p: Pos) -> (r: u64)
    ensures
        r == deliveries_at(cs@, p),
{
    let mut r: u64 = 0;
    let mut i: usize = 0;
    while i < cs.len()
        invariant
            i <= cs.len(),
            r == deliveries_at(cs@.take(i as int), p),
            r <= i,
        decreases cs.len() - i,
    {
        proof {
            lemma_counts_prefix(cs@, p, i as int);
        }
        if cs[i].carrying_log && !cs[i].moving && cs[i].pos == p {
            r = r + 1;
        }
        i += 1;
    }
    proof {
        assert(cs@.take(cs.len() as int) =~= cs@);
    }
    r
}

/// Whether a round of job work can run: the ids the citizens standing still
/// with a job may publish fit a `u64`, and every warehouse's wood fits an
/// `i32` with each log that may be handed in at its tile.
pub fn round_fits(citizens: &Vec<Citizen>, warehouses: &Vec<WarehouseStore>, next_job_id: u64) -> (b: bool)
    ensures
        b == (next_job_id + publishers(citizens@) <= u64::MAX && forall|k: int|
            0 <= k < warehouses.len() ==> #[trigger] warehouses@[k].wood + deliveries_at(
                citizens@,
                warehouses@[k].pos,
            ) <= i32::MAX),
{
    let p = count_publishers(citizens);
    if p > u64::MAX - next_job_id {
        return false;
    }
    let mut k: usize = 0;
    while k < warehouses.len()
        invariant
            k <= warehouses.len(),
            forall|m: int|
                0 <= m < k ==> #[trigger] warehouses@[m].wood + deliveries_at(citizens@, warehouses@[m].pos)
                    <= i32::MAX,
        decreases warehouses.len() - k,
    {
        let d = count_deliveries(citizens, warehouses[k].pos);
        if warehouses[k].wood as i128 + d as i128 > i32::MAX as i128 {
            return false;
        }
        k += 1;
    }
    true
}

/// Run one round of job work.
pub fn process_jobs(
    citizens: &mut Vec<Citizen>,
    jobs: &mut Vec<Job>,
    logs_on_ground: &mut Vec<LogItem>,
    warehouses: &mut Vec<WarehouseStore>,
    _resources: &mut Resources,
    _buildings: &Vec<Building>,
    world: &mut World,
    next_job_id: &mut u64,
)
    requires
        *old(next_job_id) + publishers(old(citizens)@) <= u64::MAX,
        forall|k: int|
            0 <= k < old(warehouses).len() ==> #[trigger] old(warehouses)@[k].wood + deliveries_at(
                old(citizens)@,
                old(warehouses)@[k].pos,
            ) <= i32::MAX,
    ensures
        *final(_resources) == *old(_resources),
        exists|boards: Seq<JobBoard>, mid: Seq<Citizen>|
            #[trigger] job_round(
                old(citizens)@,
                board(old(jobs)@, old(logs_on_ground)@, old(warehouses)@, *old(world), *old(next_job_id)),
                final(citizens)@,
                board(
                    final(jobs)@,
                    final(logs_on_ground)@,
                    final(warehouses)@,
                    *final(world),
                    *final(next_job_id),
                ),
                boards,
                mid,
            ),
{
    let ghost cs0 = citizens@;
    let ghost b0 = board(jobs@, logs_on_ground@, warehouses@, *world, *next_job_id);
    let ghost ws0 = warehouses@;
    let ghost next0 = *next_job_id;
    release_orphaned_jobs(jobs, citizens);
    let n = citizens.len();
    let ghost mut boards: Seq<JobBoard> = seq![board(jobs@, logs_on_ground@, warehouses@, *world, *next_job_id)];
    let mut i: usize = 0;
    while i < n
        invariant
            i <= n,
            n == citizens.len(),
            n == cs0.len(),
            boards.len() == i + 1,
            boards[0] == (JobBoard { jobs: released(b0.jobs, cs0), ..b0 }),
            boards[i as int] == board(jobs@, logs_on_ground@, warehouses@, *world, *next_job_id),
            forall|m: int| i <= m < n ==> #[trigger] citizens@[m] == cs0[m],
            forall|m: int| 0 <= m < i ==> #[trigger] turn_step(boards, cs0, citizens@, m),
            *next_job_id <= next0 + publishers(cs0.take(i as int)),
            next0 + publishers(cs0) <= u64::MAX,
            warehouses.len() == ws0.len(),
            forall|k: int|
                0 <= k < ws0.len() ==> #[trigger] ws0[k].wood + deliveries_at(cs0, ws0[k].pos) <= i32::MAX,
            forall|k: int|
                0 <= k < ws0.len() ==> #[trigger] warehouses@[k].wood <= ws0[k].wood + deliveries_at(
                    cs0.take(i as int),
                    ws0[k].pos,
                ) && warehouses@[k].pos == ws0[k].pos,
        decreases n - i,
    {
        let ghost before = citizens@;
        let ghost b = board(jobs@, logs_on_ground@, warehouses@, *world, *next_job_id);
        proof {
            let c = before[i as int];
            assert(c == cs0[i as int]);
            lemma_counts_prefix(cs0, c.pos, i as int);
            lemma_counts_prefix(cs0, c.pos, i + 1);
            if let Some(id) = c.assigned_job {
                let jid = job_index_from(jobs@, id, 0);
                lemma_job_index(jobs@, id, 0);
                if jid >= 0 {
                    if let JobKind::HaulWood { from, to } = jobs@[jid].kind {
                        lemma_warehouse_from(warehouses@, to, 0);
                        let wi = warehouse_from(warehouses@, to, 0);
                        if may_deliver_at(c, to) && wi >= 0 {
                            assert(warehouses@[wi].wood <= ws0[wi].wood + deliveries_at(
                                cs0.take(i as int),
                                ws0[wi].pos,
                            ));
                            assert(ws0[wi].pos == to);
                            assert(ws0[wi].wood + deliveries_at(cs0, ws0[wi].pos) <= i32::MAX);
                        }
                    } else if !c.moving {
                        assert(may_publish(c));
                        assert(publishers(cs0.take(i + 1)) == publishers(cs0.take(i as int)) + 1);
                        assert(b.next_job_id < u64::MAX);
                    }
                }
            }
            assert(turn_fits(b, c));
        }
        work_on_job(&mut citizens[i], jobs, logs_on_ground, warehouses, world, next_job_id);
        proof {
            let b2 = board(jobs@, logs_on_ground@, warehouses@, *world, *next_job_id);
            lemma_turn_bounds(b, before[i as int], b2, citizens@[i as int]);
            assert forall|k: int| 0 <= k < ws0.len() implies #[trigger] warehouses@[k].wood <= ws0[k].wood
                + deliveries_at(cs0.take(i + 1), ws0[k].pos) && warehouses@[k].pos == ws0[k].pos by {
                lemma_counts_prefix(cs0, ws0[k].pos, i as int);
                assert(b2.warehouses[k].wood <= b.warehouses[k].wood + 1);
            }
            let old_boards = boards;
            boards = boards.push(b2);
            assert forall|m: int| 0 <= m <= i implies #[trigger] turn_step(boards, cs0, citizens@, m) by {
                if m < i {
                    assert(turn_step(old_boards, cs0, before, m));
                    assert(boards[m] == old_boards[m]);
                    assert(boards[m + 1] == old_boards[m + 1]);
                    assert(citizens@[m] == before[m]);
                }
            }
        }
        i += 1;
    }
    let ghost mid = citizens@;
    drop_finished_jobs(jobs);
    let mut i: usize = 0;
    while i < n
        invariant
            i <= n,
            n == citizens.len(),
            n == mid.len(),
            forall|m: int| i <= m < n ==> #[trigger] citizens@[m] == mid[m],
            forall|m: int| 0 <= m < i ==> back_to_work(*world, jobs@, #[trigger] mid[m], citizens@[m]),
        decreases n - i,
    {
        let ghost before = citizens@;
        return_to_workplace(&mut citizens[i], jobs, world);
        proof {
            assert forall|m: int| 0 <= m <= i implies back_to_work(*world, jobs@, #[trigger] mid[m], citizens@[m]) by {
                if m < i {
                    assert(citizens@[m] == before[m]);
                }
            }
        }
        i += 1;
    }
    proof {
        assert(job_round(
            cs0,
            b0,
            citizens@,
            board(jobs@, logs_on_ground@, warehouses@, *world, *next_job_id),
            boards,
            mid,
        ));
    }
}

} // verus!
