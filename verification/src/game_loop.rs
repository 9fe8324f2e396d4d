//! The daytime routines of a simulation step: staffing buildings, creating
//! felling and hauling jobs, walking, and production at the workplace.

use vstd::prelude::*;
use crate::types::{
    Pos, Job, JobKind, Citizen, CitizenState, Building, BuildingKind, LogItem, WarehouseStore,
    TileKind, manhattan, manhattan_distance, nearest_warehouse, find_nearest_warehouse,
};
use crate::world::World;
use crate::game::{plan_path, route_planned};
use crate::jobs::anchor;
use crate::building_production::{
    ProductionStrategy, production_step, building_plan, pos_in_range, create_production_strategy,
};

verus! {

// ---------------------------------------------------------------- staffing

/// Houses and warehouses employ nobody.
pub open spec fn employs(kind: BuildingKind) -> bool {
    kind != BuildingKind::House && kind != BuildingKind::Warehouse
}

/// How many of the first `n` citizens work at `p`.
pub open spec fn workers_at(cs: Seq<Citizen>, p: Pos, n: int) -> int
    decreases n,
{
    if n <= 0 {
        0
    } else {
        workers_at(cs, p, n - 1) + if cs[n - 1].workplace == Some(p) {
            1int
        } else {
            0
        }
    }
}

/// Counted citizens are never more than those looked at.
pub proof fn lemma_workers_at_bound(cs: Seq<Citizen>, p: Pos, n: int)
    requires
        n >= 0,
    ensures
        0 <= workers_at(cs, p, n) <= n,
    decreases n,
{
    if n > 0 {
        lemma_workers_at_bound(cs, p, n - 1);
    }
}

/// How many citizens work at `p`.
pub fn count_workers(citizens: &Vec<Citizen>, p: Pos) -> (r: usize)
    ensures
        r == workers_at(citizens@, p, citizens.len() as int),
{
    let mut n: usize = 0;
    let mut i: usize = 0;
    while i < citizens.len()
        invariant
            i <= citizens.len(),
            n == workers_at(citizens@, p, i as int),
        decreases citizens.len() - i,
    {
        proof {
            lemma_workers_at_bound(citizens@, p, i as int);
        }
        if citizens[i].workplace == Some(p) {
            n += 1;
        }
        i += 1;
    }
    n
}

/// A citizen who may be hired: idle or asleep, standing, and not placed by
/// the player.
pub open spec fn hireable(c: Citizen) -> bool {
    &&& (c.state == CitizenState::Idle || c.state == CitizenState::Sleeping)
    &&& !c.moving
    &&& !c.manual_workplace
}

/// Index of the hireable citizen among the first `n` nearest to `t`, the
/// first one on ties; -1 when there is none.
pub open spec fn nearest_hire_in(cs: Seq<Citizen>, t: Pos, n: int) -> int
    decreases n,
{
    if n <= 0 {
        -1
    } else {
        let b = nearest_hire_in(cs, t, n - 1);
        if hireable(cs[n - 1]) && (b < 0 || manhattan(cs[n - 1].pos, t) < manhattan(cs[b].pos, t)) {
            n - 1
        } else {
            b
        }
    }
}

/// The chosen citizen is hireable and no hireable citizen is nearer; those
/// before it are strictly farther; there is none only when nobody is
/// hireable.
pub proof fn lemma_nearest_hire(cs: Seq<Citizen>, t: Pos, n: int)
    requires
        0 <= n <= cs.len(),
    ensures
        ({
            let r = nearest_hire_in(cs, t, n);
            &&& -1 <= r < n
            &&& r == -1 <==> forall|k: int| 0 <= k < n ==> !#[trigger] hireable(cs[k])
            &&& r >= 0 ==> hireable(cs[r])
            &&& r >= 0 ==> forall|k: int|
                0 <= k < n && #[trigger] hireable(cs[k]) ==> manhattan(cs[r].pos, t) <= manhattan(
                    cs[k].pos,
                    t,
                )
            &&& r >= 0 ==> forall|k: int|
                0 <= k < r && #[trigger] hireable(cs[k]) ==> manhattan(cs[r].pos, t) < manhattan(
                    cs[k].pos,
                    t,
                )
        }),
    decreases n,
{
    if n > 0 {
        lemma_nearest_hire(cs, t, n - 1);
    }
}

fn nearest_hireable(citizens: &Vec<Citizen>, target: Pos) -> (r: Option<usize>)
    ensures
        match r {
            Some(i) => i == nearest_hire_in(citizens@, target, citizens.len() as int) && i < citizens.len(),
            None => nearest_hire_in(citizens@, target, citizens.len() as int) == -1,
        },
{
    let mut best: Option<usize> = None;
    let mut best_d: i64 = 0;
    let mut i: usize = 0;
    while i < citizens.len()
        invariant
            i <= citizens.len(),
            match best {
                Some(b) => b == nearest_hire_in(citizens@, target, i as int) && b < i && best_d
                    == manhattan(citizens@[b as int].pos, target),
                None => nearest_hire_in(citizens@, target, i as int) == -1,
            },
        decreases citizens.len() - i,
    {
        let c = &citizens[i];
        if (c.state == CitizenState::Idle || c.state == CitizenState::Sleeping) && !c.moving
            && !c.manual_workplace {
            let d = manhattan_distance(c.pos, target);
            let closer = match best {
                None => true,
                Some(_) => d < best_d,
            };
            if closer {
                best = Some(i);
                best_d = d;
            }
        }
        i += 1;
    }
    proof {
        lemma_nearest_hire(citizens@, target, citizens.len() as int);
    }
    best
}

/// `c2` is `c` hired at building `b`: employed there and walking to it on a
/// planned route, with no step progress.
pub open spec fn hired(w: World, b: Building, c: Citizen, c2: Citizen) -> bool {
    let before = Citizen { workplace: Some(b.pos), target: b.pos, ..c };
    &&& c2.moving
    &&& c2.progress == 0
    &&& c2.state == CitizenState::GoingToWork
    &&& route_planned(
        w,
        before,
        Citizen {
            moving: before.pos != b.pos,
            progress: if before.pos != b.pos {
                0
            } else {
                before.progress
            },
            state: before.state,
            ..c2
        },
        b.pos,
    )
}

/// Staffing building `b`: when it employs people and has fewer workers than
/// it wants, the nearest hireable citizen is hired, unless that citizen
/// sleeps away from home.
pub open spec fn staffed(w: World, b: Building, cs: Seq<Citizen>, cs2: Seq<Citizen>) -> bool {
    let i = nearest_hire_in(cs, b.pos, cs.len() as int);
    if !employs(b.kind) || workers_at(cs, b.pos, cs.len() as int) >= b.workers_target || i < 0 || (
    cs[i].state == CitizenState::Sleeping && cs[i].pos != cs[i].home) {
        cs2 == cs
    } else {
        &&& cs2.len() == cs.len()
        &&& forall|k: int| 0 <= k < cs.len() && k != i ==> cs2[k] == cs[k]
        &&& hired(w, b, cs[i], cs2[i])
    }
}

/// Hire at most one worker for building `b`.
pub fn staff_building(citizens: &mut Vec<Citizen>, b: &Building, world: &World)
    ensures
        staffed(*world, *b, old(citizens)@, final(citizens)@),
{
    if b.kind == BuildingKind::House || b.kind == BuildingKind::Warehouse {
        return ;
    }
    let current = count_workers(citizens, b.pos);
    if b.workers_target < 0 || current >= b.workers_target as usize {
        return ;
    }
    let ghost before = citizens@;
    match nearest_hireable(citizens, b.pos) {
        Some(ci) => {
            if citizens[ci].state == CitizenState::Sleeping && citizens[ci].pos != citizens[ci].home {
                return ;
            }
            citizens[ci].workplace = Some(b.pos);
            citizens[ci].target = b.pos;
            plan_path(world, &mut citizens[ci], b.pos);
            citizens[ci].moving = true;
            citizens[ci].progress = 0;
            citizens[ci].state = CitizenState::GoingToWork;
            proof {
                assert forall|k: int| 0 <= k < before.len() && k != ci implies citizens@[k] == before[k] by {}
            }
        },
        None => {},
    }
}

/// Step `j` of a staffing round: building `j` staffed from the citizens as
/// the buildings before it left them.
pub open spec fn staff_step(w: World, bs: Seq<Building>, trace: Seq<Seq<Citizen>>, j: int) -> bool {
    staffed(w, bs[j], trace[j], trace[j + 1])
}

/// The buildings are staffed in order; `trace[j]` are the citizens before
/// building `j`.
pub open spec fn staffing_round(
    w: World,
    bs: Seq<Building>,
    cs: Seq<Citizen>,
    cs2: Seq<Citizen>,
    trace: Seq<Seq<Citizen>>,
) -> bool {
    &&& trace.len() == bs.len() + 1
    &&& trace[0] == cs
    &&& trace[bs.len() as int] == cs2
    &&& forall|j: int| 0 <= j < bs.len() ==> #[trigger] staff_step(w, bs, trace, j)
}

/// Give each understaffed building, in order, one more worker.
pub fn assign_workers_to_buildings(citizens: &mut Vec<Citizen>, buildings: &Vec<Building>, world: &World)
    ensures
        exists|trace: Seq<Seq<Citizen>>|
            #[trigger] staffing_round(*world, buildings@, old(citizens)@, final(citizens)@, trace),
{
    let ghost cs0 = citizens@;
    let ghost mut trace: Seq<Seq<Citizen>> = seq![citizens@];
    let mut j: usize = 0;
    while j < buildings.len()
        invariant
            j <= buildings.len(),
            trace.len() == j + 1,
            trace[0] == cs0,
            trace[j as int] == citizens@,
            forall|k: int| 0 <= k < j ==> #[trigger] staff_step(*world, buildings@, trace, k),
        decreases buildings.len() - j,
    {
        let ghost before = citizens@;
        staff_building(citizens, &buildings[j], world);
        proof {
            let old_trace = trace;
            trace = trace.push(citizens@);
            assert forall|k: int| 0 <= k <= j implies #[trigger] staff_step(*world, buildings@, trace, k) by {
                if k < j {
                    assert(staff_step(*world, buildings@, old_trace, k));
                    assert(trace[k] == old_trace[k]);
                    assert(trace[k + 1] == old_trace[k + 1]);
                }
            }
        }
        j += 1;
    }
    proof {
        assert(staffing_round(*world, buildings@, cs0, citizens@, trace));
    }
}

// ---------------------------------------------------------------- trimming

/// The citizen counts towards the staff of the building at `p`: employed
/// there and not placed by the player.
pub open spec fn counts_toward(c: Citizen, p: Pos) -> bool {
    c.workplace == Some(p) && !c.manual_workplace
}

/// How many of the first `n` citizens count towards the staff at `p`.
pub open spec fn staff_at(cs: Seq<Citizen>, p: Pos, n: int) -> int
    decreases n,
{
    if n <= 0 {
        0
    } else {
        staff_at(cs, p, n - 1) + if counts_toward(cs[n - 1], p) {
            1int
        } else {
            0
        }
    }
}

/// Citizen `j` ranks after citizen `i` when sorting by distance to `p`
/// (by index among equals).
pub open spec fn ranks_after(cs: Seq<Citizen>, p: Pos, j: int, i: int) -> bool {
    manhattan(cs[j].pos, p) > manhattan(cs[i].pos, p) || (manhattan(cs[j].pos, p) == manhattan(
        cs[i].pos,
        p,
    ) && j > i)
}

/// How many of the first `n` staff members at `p` rank after citizen `i`.
pub open spec fn ranked_after(cs: Seq<Citizen>, p: Pos, i: int, n: int) -> int
    decreases n,
{
    if n <= 0 {
        0
    } else {
        ranked_after(cs, p, i, n - 1) + if counts_toward(cs[n - 1], p) && ranks_after(cs, p, n - 1, i) {
            1int
        } else {
            0
        }
    }
}

/// Staff beyond what building `b` wants.
pub open spec fn excess(cs: Seq<Citizen>, b: Building) -> int {
    let over = staff_at(cs, b.pos, cs.len() as int) - b.workers_target;
    if over > 0 {
        over
    } else {
        0
    }
}

/// Citizen `i` is let go by building `b`: it is one of the `excess`
/// staff members farthest from the building (the later one among equals).
pub open spec fn dismissed(cs: Seq<Citizen>, b: Building, i: int) -> bool {
    &&& employs(b.kind)
    &&& counts_toward(cs[i], b.pos)
    &&& ranked_after(cs, b.pos, i, cs.len() as int) < excess(cs, b)
}

/// The citizen without a workplace; one on its way to work or at work
/// becomes idle and stops.
pub open spec fn let_go(c: Citizen) -> Citizen {
    if c.state == CitizenState::GoingToWork || c.state == CitizenState::Working {
        Citizen { workplace: None, state: CitizenState::Idle, moving: false, ..c }
    } else {
        Citizen { workplace: None, ..c }
    }
}

/// The citizens after building `b` let its excess staff go.
pub open spec fn trimmed(cs: Seq<Citizen>, b: Building) -> Seq<Citizen> {
    Seq::new(cs.len(), |i: int| if dismissed(cs, b, i) { let_go(cs[i]) } else { cs[i] })
}

/// The citizens after the first `n` buildings trimmed their staff in order.
pub open spec fn trimmed_by(cs: Seq<Citizen>, bs: Seq<Building>, n: int) -> Seq<Citizen>
    decreases n,
{
    if n <= 0 {
        cs
    } else {
        trimmed(trimmed_by(cs, bs, n - 1), bs[n - 1])
    }
}

pub proof fn lemma_staff_at_bound(cs: Seq<Citizen>, p: Pos, n: int)
    requires
        n >= 0,
    ensures
        0 <= staff_at(cs, p, n) <= n,
    decreases n,
{
    if n > 0 {
        lemma_staff_at_bound(cs, p, n - 1);
    }
}

pub proof fn lemma_ranked_after_bound(cs: Seq<Citizen>, p: Pos, i: int, n: int)
    requires
        n >= 0,
    ensures
        0 <= ranked_after(cs, p, i, n) <= n,
    decreases n,
{
    if n > 0 {
        lemma_ranked_after_bound(cs, p, i, n - 1);
    }
}

/// Let go of the staff building `b` has in excess.
pub fn trim_staff(citizens: &mut Vec<Citizen>, b: &Building)
    ensures
        final(citizens)@ == trimmed(old(citizens)@, *b),
{
    let ghost cs0 = citizens@;
    let n = citizens.len();
    if b.kind == BuildingKind::House || b.kind == BuildingKind::Warehouse {
        proof {
            assert(citizens@ =~= trimmed(cs0, *b));
        }
        return ;
    }
    // staff count
    let mut staff: usize = 0;
    let mut i: usize = 0;
    while i < n
        invariant
            i <= n,
            n == citizens.len(),
            citizens@ == cs0,
            staff == staff_at(cs0, b.pos, i as int),
        decreases n - i,
    {
        proof {
            lemma_staff_at_bound(cs0, b.pos, i as int);
        }
        if citizens[i].workplace == Some(b.pos) && !citizens[i].manual_workplace {
            staff += 1;
        }
        i += 1;
    }
    let over: i128 = if staff as i128 - b.workers_target as i128 > 0 {
        staff as i128 - b.workers_target as i128
    } else {
        0
    };
    // who goes
    let mut leaving: Vec<bool> = Vec::new();
    let mut i: usize = 0;
    while i < n
        invariant
            i <= n,
            n == citizens.len(),
            citizens@ == cs0,
            over == excess(cs0, *b),
            employs(b.kind),
            leaving.len() == i,
            forall|k: int| 0 <= k < i ==> #[trigger] leaving@[k] == dismissed(cs0, *b, k),
        decreases n - i,
    {
        let mut goes = false;
        if citizens[i].workplace == Some(b.pos) && !citizens[i].manual_workplace {
            let di = manhattan_distance(citizens[i].pos, b.pos);
            let mut after: usize = 0;
            let mut j: usize = 0;
            while j < n
                invariant
                    j <= n,
                    i < n,
                    n == citizens.len(),
                    citizens@ == cs0,
                    di == manhattan(cs0[i as int].pos, b.pos),
                    after == ranked_after(cs0, b.pos, i as int, j as int),
                decreases n - j,
            {
                proof {
                    lemma_ranked_after_bound(cs0, b.pos, i as int, j as int);
                }
                if citizens[j].workplace == Some(b.pos) && !citizens[j].manual_workplace {
                    let dj = manhattan_distance(citizens[j].pos, b.pos);
                    if dj > di || (dj == di && j > i) {
                        after += 1;
                    }
                }
                j += 1;
            }
            goes = (after as i128) < over;
        }
        leaving.push(goes);
        i += 1;
    }
    let mut i: usize = 0;
    while i < n
        invariant
            i <= n,
            n == citizens.len(),
            n == cs0.len(),
            leaving.len() == n,
            forall|k: int| 0 <= k < n ==> #[trigger] leaving@[k] == dismissed(cs0, *b, k),
            forall|k: int| 0 <= k < i ==> #[trigger] citizens@[k] == trimmed(cs0, *b)[k],
            forall|k: int| i <= k < n ==> #[trigger] citizens@[k] == cs0[k],
        decreases n - i,
    {
        let ghost before = citizens@;
        if leaving[i] {
            citizens[i].workplace = None;
            if citizens[i].state == CitizenState::GoingToWork || citizens[i].state == CitizenState::Working {
                citizens[i].state = CitizenState::Idle;
                citizens[i].moving = false;
            }
        }
        proof {
            assert(citizens@[i as int] == trimmed(cs0, *b)[i as int]);
            assert forall|k: int| 0 <= k < i + 1 implies #[trigger] citizens@[k] == trimmed(cs0, *b)[k] by {
                if k < i {
                    assert(before[k] == trimmed(cs0, *b)[k]);
                }
            }
        }
        i += 1;
    }
    proof {
        assert(citizens@ =~= trimmed(cs0, *b));
    }
}

/// Every building, in order, lets go of the staff it has in excess.
pub fn adjust_workers_count(citizens: &mut Vec<Citizen>, buildings: &Vec<Building>)
    ensures
        final(citizens)@ == trimmed_by(old(citizens)@, buildings@, buildings.len() as int),
{
    let ghost cs0 = citizens@;
    let mut j: usize = 0;
    while j < buildings.len()
        invariant
            j <= buildings.len(),
            citizens@ == trimmed_by(cs0, buildings@, j as int),
        decreases buildings.len() - j,
    {
        trim_staff(citizens, &buildings[j]);
        j += 1;
    }
}

// ---------------------------------------------------------------- felling jobs

/// A mature tree stands at `p`.
pub open spec fn mature(w: World, p: Pos) -> bool {
    w.tree_at(p) == Some(2u8)
}

/// `p` lies in the square of radius `r` around `c`.
pub open spec fn in_square(c: Pos, r: int, p: Pos) -> bool {
    -r <= p.x - c.x <= r && -r <= p.y - c.y <= r
}

/// `q` comes before `p` when scanning rows from the top, each from the left.
pub open spec fn scanned_before(q: Pos, p: Pos) -> bool {
    q.y < p.y || (q.y == p.y && q.x < p.x)
}

/// `p` is the mature tree the lumberjack at `c` picks within radius `r`:
/// the nearest (Manhattan), the first scanned among equals.
pub open spec fn best_mature(w: World, c: Pos, r: int, p: Pos) -> bool {
    &&& in_square(c, r, p)
    &&& mature(w, p)
    &&& forall|q: Pos| #[trigger] in_square(c, r, q) && mature(w, q) ==> manhattan(p, c) <= manhattan(q, c)
    &&& forall|q: Pos|
        #[trigger] in_square(c, r, q) && mature(w, q) && scanned_before(q, p) ==> manhattan(p, c) < manhattan(q, c)
}

/// The mature tree picked within radius `r`, if any.
pub open spec fn mature_choice(w: World, c: Pos, r: int) -> Option<Pos> {
    if exists|p: Pos| #[trigger] best_mature(w, c, r, p) {
        Some(choose|p: Pos| #[trigger] best_mature(w, c, r, p))
    } else {
        None
    }
}

/// At most one tile is the pick.
pub proof fn lemma_best_mature_unique(w: World, c: Pos, r: int, p: Pos, q: Pos)
    requires
        best_mature(w, c, r, p),
        best_mature(w, c, r, q),
    ensures
        p == q,
{
    assert(in_square(c, r, q) && mature(w, q));
    assert(in_square(c, r, p) && mature(w, p));
    if p != q {
        if scanned_before(q, p) {
        } else {
            assert(scanned_before(p, q));
        }
    }
}

/// `q` was scanned before the cursor (row `dy`, column `dx`, both relative
/// to the centre) within the square.
pub open spec fn scanned(c: Pos, r: int, dy: int, dx: int, q: Pos) -> bool {
    in_square(c, r, q) && (q.y - c.y < dy || (q.y - c.y == dy && q.x - c.x < dx))
}

/// `best` is the pick among the tiles scanned so far.
pub open spec fn best_so_far(w: World, c: Pos, r: int, dy: int, dx: int, best: Option<(i64, Pos)>) -> bool {
    match best {
        None => forall|q: Pos| #[trigger] scanned(c, r, dy, dx, q) ==> !mature(w, q),
        Some((d, p)) => {
            &&& scanned(c, r, dy, dx, p)
            &&& mature(w, p)
            &&& d == manhattan(p, c)
            &&& forall|q: Pos| #[trigger] scanned(c, r, dy, dx, q) && mature(w, q) ==> d <= manhattan(q, c)
            &&& forall|q: Pos|
                #[trigger] scanned(c, r, dy, dx, q) && mature(w, q) && scanned_before(q, p) ==> d < manhattan(q, c)
        },
    }
}

/// The centre leaves room for the widest search square.
pub open spec fn search_in_range(p: Pos) -> bool {
    i32::MIN + 64 <= p.x <= i32::MAX - 64 && i32::MIN + 64 <= p.y <= i32::MAX - 64
}

/// Whether the tree search around `p` stays within `i32`, as
/// `search_in_range` states.
pub fn in_search_range(p: Pos) -> (b: bool)
    ensures
        b == search_in_range(p),
{
    i32::MIN + 64 <= p.x && p.x <= i32::MAX - 64 && i32::MIN + 64 <= p.y && p.y <= i32::MAX - 64
}

/// The nearest mature tree within radius `r` of `center`, the first scanned
/// among equals.
pub fn nearest_mature_tree(world: &World, center: Pos, r: i32) -> (res: Option<Pos>)
    requires
        0 <= r <= 64,
        search_in_range(center),
    ensures
        res == mature_choice(*world, center, r as int),
{
    let mut best: Option<(i64, Pos)> = None;
    let mut dy: i32 = -r;
    while dy <= r
        invariant
            0 <= r <= 64,
            search_in_range(center),
            -r <= dy <= r + 1,
            best_so_far(*world, center, r as int, dy as int, -r as int, best),
        decreases r + 1 - dy,
    {
        let mut dx: i32 = -r;
        while dx <= r
            invariant
                0 <= r <= 64,
                search_in_range(center),
                -r <= dy <= r,
                -r <= dx <= r + 1,
                best_so_far(*world, center, r as int, dy as int, dx as int, best),
            decreases r + 1 - dx,
        {
            let p = Pos { x: center.x + dx, y: center.y + dy };
            let ghost old_best = best;
            if world.tree_stage(p) == Some(2u8) {
                let d = manhattan_distance(p, center);
                let better = match best {
                    None => true,
                    Some(bp) => d < bp.0,
                };
                if better {
                    best = Some((d, p));
                }
            }
            proof {
                assert forall|q: Pos| #[trigger] scanned(center, r as int, dy as int, dx + 1, q) implies scanned(
                    center,
                    r as int,
                    dy as int,
                    dx as int,
                    q,
                ) || q == p by {}
                match old_best {
                    Some((d0, p0)) => {
                        assert(scanned(center, r as int, dy as int, dx as int, p0));
                        assert(scanned_before(p0, p));
                    },
                    None => {},
                }
                match best {
                    Some((d1, p1)) => {
                        if p1 == p {
                            assert forall|q: Pos| #[trigger] scanned(center, r as int, dy as int, dx + 1, q)
                                && mature(*world, q) && scanned_before(q, p1) implies d1 < manhattan(q, center) by {
                                assert(scanned(center, r as int, dy as int, dx as int, q));
                            }
                        }
                    },
                    None => {},
                }
            }
            dx += 1;
        }
        proof {
            assert forall|q: Pos| #[trigger] scanned(center, r as int, dy + 1, -r as int, q) <==> scanned(
                center,
                r as int,
                dy as int,
                r + 1,
                q,
            ) by {}
            match best {
                Some((d1, p1)) => {
                    assert(scanned(center, r as int, dy as int, r + 1, p1));
                },
                None => {},
            }
        }
        dy += 1;
    }
    proof {
        assert forall|q: Pos| #[trigger] in_square(center, r as int, q) <==> scanned(
            center,
            r as int,
            r + 1,
            -r as int,
            q,
        ) by {}
    }
    match best {
        Some((_, p)) => {
            proof {
                assert(scanned(center, r as int, r + 1, -r as int, p));
                assert(best_mature(*world, center, r as int, p));
                let q = choose|q: Pos| #[trigger] best_mature(*world, center, r as int, q);
                lemma_best_mature_unique(*world, center, r as int, p, q);
            }
            Some(p)
        },
        None => {
            proof {
                assert forall|p: Pos| !#[trigger] best_mature(*world, center, r as int, p) by {
                    if best_mature(*world, center, r as int, p) {
                        assert(scanned(center, r as int, r + 1, -r as int, p));
                    }
                }
            }
            None
        },
    }
}

/// How many of the first `n` citizens work at `p` and have eaten today.
pub open spec fn fed_workers_at(cs: Seq<Citizen>, p: Pos, n: int) -> int
    decreases n,
{
    if n <= 0 {
        0
    } else {
        fed_workers_at(cs, p, n - 1) + if cs[n - 1].workplace == Some(p) && cs[n - 1].fed_today {
            1int
        } else {
            0
        }
    }
}

/// Whether a job fells a tree within 48 steps of `p`.
pub open spec fn fells_near(kind: JobKind, p: Pos) -> bool {
    match kind {
        JobKind::ChopWood { pos } => manhattan(pos, p) <= 48,
        _ => false,
    }
}

/// How many of the first `n` jobs fell a tree within 48 steps of `p`.
pub open spec fn felling_near(jobs: Seq<Job>, p: Pos, n: int) -> int
    decreases n,
{
    if n <= 0 {
        0
    } else {
        felling_near(jobs, p, n - 1) + if fells_near(jobs[n - 1].kind, p) {
            1int
        } else {
            0
        }
    }
}

/// The tree the lumberjack's hut at `c` marks next: the pick within 24
/// tiles, else within 32, 48, and at last 64.
pub open spec fn tree_to_mark(w: World, c: Pos) -> Option<Pos> {
    match mature_choice(w, c, 24) {
        Some(p) => Some(p),
        None => match mature_choice(w, c, 32) {
            Some(p) => Some(p),
            None => match mature_choice(w, c, 48) {
                Some(p) => Some(p),
                None => mature_choice(w, c, 64),
            },
        },
    }
}

/// Some job starts at `p`.
pub open spec fn job_at(jobs: Seq<Job>, p: Pos) -> bool {
    exists|k: int| 0 <= k < jobs.len() && #[trigger] anchor(jobs[k].kind) == p
}

/// The jobs and the next id after lumberjack's hut `b` marked a tree: only
/// while it has fed workers and fewer felling jobs nearby than those
/// workers, and only a tree no job starts at yet.
pub open spec fn marked(w: World, cs: Seq<Citizen>, b: Building, jobs: Seq<Job>, next: u64) -> (Seq<Job>, u64) {
    let workers = fed_workers_at(cs, b.pos, cs.len() as int);
    if b.kind != BuildingKind::Lumberjack || workers <= 0 || felling_near(jobs, b.pos, jobs.len() as int)
        >= workers {
        (jobs, next)
    } else {
        match tree_to_mark(w, b.pos) {
            Some(np) => if job_at(jobs, np) {
                (jobs, next)
            } else {
                (
                    jobs.push(Job { id: next, kind: JobKind::ChopWood { pos: np }, taken: false, done: false }),
                    (next + 1) as u64,
                )
            },
            None => (jobs, next),
        }
    }
}

/// The jobs and the next id after the first `n` buildings marked trees in
/// order.
pub open spec fn marked_by(w: World, cs: Seq<Citizen>, bs: Seq<Building>, jobs: Seq<Job>, next: u64, n: int) -> (
    Seq<Job>,
    u64,
)
    decreases n,
{
    if n <= 0 {
        (jobs, next)
    } else {
        let prev = marked_by(w, cs, bs, jobs, next, n - 1);
        marked(w, cs, bs[n - 1], prev.0, prev.1)
    }
}

pub proof fn lemma_fed_workers_bound(cs: Seq<Citizen>, p: Pos, n: int)
    requires
        n >= 0,
    ensures
        0 <= fed_workers_at(cs, p, n) <= n,
    decreases n,
{
    if n > 0 {
        lemma_fed_workers_bound(cs, p, n - 1);
    }
}

pub proof fn lemma_felling_near_bound(jobs: Seq<Job>, p: Pos, n: int)
    requires
        n >= 0,
    ensures
        0 <= felling_near(jobs, p, n) <= n,
    decreases n,
{
    if n > 0 {
        lemma_felling_near_bound(jobs, p, n - 1);
    }
}

/// Whether some job starts at `p`.
pub fn any_job_at(jobs: &Vec<Job>, p: Pos) -> (r: bool)
    ensures
        r == job_at(jobs@, p),
{
    let mut i: usize = 0;
    while i < jobs.len()
        invariant
            i <= jobs.len(),
            forall|k: int| 0 <= k < i ==> #[trigger] anchor(jobs@[k].kind) != p,
        decreases jobs.len() - i,
    {
        let hit = match jobs[i].kind {
            JobKind::ChopWood { pos } => pos == p,
            JobKind::HaulWood { from, .. } => from == p,
        };
        if hit {
            assert(anchor(jobs@[i as int].kind) == p);
            return true;
        }
        i += 1;
    }
    false
}

/// Let lumberjack's hut `b` mark its next tree.
fn mark_tree(b: &Building, jobs: &mut Vec<Job>, next_job_id: &mut u64, world: &World, citizens: &Vec<Citizen>)
    requires
        *old(next_job_id) < u64::MAX,
        b.kind == BuildingKind::Lumberjack ==> search_in_range(b.pos),
    ensures
        (final(jobs)@, *final(next_job_id)) == marked(*world, citizens@, *b, old(jobs)@, *old(next_job_id)),
{
    if b.kind != BuildingKind::Lumberjack {
        return ;
    }
    let mut workers: usize = 0;
    let mut i: usize = 0;
    while i < citizens.len()
        invariant
            i <= citizens.len(),
            workers == fed_workers_at(citizens@, b.pos, i as int),
        decreases citizens.len() - i,
    {
        proof {
            lemma_fed_workers_bound(citizens@, b.pos, i as int);
        }
        if citizens[i].workplace == Some(b.pos) && citizens[i].fed_today {
            workers += 1;
        }
        i += 1;
    }
    if workers == 0 {
        return ;
    }
    let mut active: usize = 0;
    let mut i: usize = 0;
    while i < jobs.len()
        invariant
            i <= jobs.len(),
            active == felling_near(jobs@, b.pos, i as int),
        decreases jobs.len() - i,
    {
        proof {
            lemma_felling_near_bound(jobs@, b.pos, i as int);
        }
        if let JobKind::ChopWood { pos } = jobs[i].kind {
            if manhattan_distance(pos, b.pos) <= 48 {
                active += 1;
            }
        }
        i += 1;
    }
    if active >= workers {
        return ;
    }
    let mut found = nearest_mature_tree(world, b.pos, 24);
    if found.is_none() {
        found = nearest_mature_tree(world, b.pos, 32);
    }
    if found.is_none() {
        found = nearest_mature_tree(world, b.pos, 48);
    }
    if found.is_none() {
        found = nearest_mature_tree(world, b.pos, 64);
    }
    if let Some(np) = found {
        if !any_job_at(jobs, np) {
            let id = *next_job_id;
            *next_job_id = id + 1;
            jobs.push(Job { id, kind: JobKind::ChopWood { pos: np }, taken: false, done: false });
        }
    }
}

/// Let every lumberjack's hut, in order, mark its next tree to fell.
pub fn generate_lumberjack_jobs(
    buildings: &Vec<Building>,
    jobs: &mut Vec<Job>,
    next_job_id: &mut u64,
    world: &World,
    citizens: &Vec<Citizen>,
)
    requires
        *old(next_job_id) + buildings.len() <= u64::MAX,
        forall|k: int|
            0 <= k < buildings.len() && #[trigger] buildings@[k].kind == BuildingKind::Lumberjack
                ==> search_in_range(buildings@[k].pos),
    ensures
        (final(jobs)@, *final(next_job_id)) == marked_by(
            *world,
            citizens@,
            buildings@,
            old(jobs)@,
            *old(next_job_id),
            buildings.len() as int,
        ),
{
    let ghost jobs0 = jobs@;
    let ghost next0 = *next_job_id;
    let mut j: usize = 0;
    while j < buildings.len()
        invariant
            j <= buildings.len(),
            next0 + buildings.len() <= u64::MAX,
            *next_job_id <= next0 + j,
            forall|k: int|
                0 <= k < buildings.len() && #[trigger] buildings@[k].kind == BuildingKind::Lumberjack
                    ==> search_in_range(buildings@[k].pos),
            (jobs@, *next_job_id) == marked_by(*world, citizens@, buildings@, jobs0, next0, j as int),
        decreases buildings.len() - j,
    {
        let ghost before = *next_job_id;
        mark_tree(&buildings[j], jobs, next_job_id, world, citizens);
        assert(*next_job_id <= before + 1);
        j += 1;
    }
}

// ---------------------------------------------------------------- hauling jobs

/// Whether a job hauls a log from `p`.
pub open spec fn hauls_from(kind: JobKind, p: Pos) -> bool {
    match kind {
        JobKind::HaulWood { from, .. } => from == p,
        _ => false,
    }
}

/// Some job hauls a log from `p`.
pub open spec fn haul_at(jobs: Seq<Job>, p: Pos) -> bool {
    exists|k: int| 0 <= k < jobs.len() && #[trigger] hauls_from(jobs[k].kind, p)
}

/// The jobs and the next id after a hauling job was published for `log`:
/// only for a log lying free that no job hauls yet, towards the nearest
/// warehouse.
pub open spec fn haul_published(ws: Seq<WarehouseStore>, log: LogItem, jobs: Seq<Job>, next: u64) -> (
    Seq<Job>,
    u64,
) {
    if log.carried || haul_at(jobs, log.pos) {
        (jobs, next)
    } else {
        match nearest_warehouse(ws, log.pos) {
            Some(dst) => (
                jobs.push(
                    Job {
                        id: next,
                        kind: JobKind::HaulWood { from: log.pos, to: dst },
                        taken: false,
                        done: false,
                    },
                ),
                (next + 1) as u64,
            ),
            None => (jobs, next),
        }
    }
}

/// The jobs and the next id after the first `n` logs were looked at in order.
pub open spec fn hauls_published(
    ws: Seq<WarehouseStore>,
    logs: Seq<LogItem>,
    jobs: Seq<Job>,
    next: u64,
    n: int,
) -> (Seq<Job>, u64)
    decreases n,
{
    if n <= 0 {
        (jobs, next)
    } else {
        let prev = hauls_published(ws, logs, jobs, next, n - 1);
        haul_published(ws, logs[n - 1], prev.0, prev.1)
    }
}

/// Where a hauling job takes its log from.
pub open spec fn haul_source(kind: JobKind) -> Pos {
    match kind {
        JobKind::HaulWood { from, .. } => from,
        JobKind::ChopWood { pos } => pos,
    }
}

/// Job `k` of `js` is a fresh hauling job published after the first `base`
/// jobs, starting from id `next`: open, numbered in turn, and the first
/// job to haul from its tile.
pub open spec fn fresh_haul(js: Seq<Job>, base: int, next: u64, k: int) -> bool {
    &&& js[k].kind is HaulWood
    &&& !js[k].taken
    &&& !js[k].done
    &&& js[k].id == next + (k - base)
    &&& !haul_at(js.take(k), haul_source(js[k].kind))
}

proof fn lemma_hauls_longer(ws: Seq<WarehouseStore>, logs: Seq<LogItem>, jobs: Seq<Job>, next: u64, m: int, n: int)
    requires
        0 <= m <= n <= logs.len(),
    ensures
        jobs.len() <= hauls_published(ws, logs, jobs, next, m).0.len() <= hauls_published(ws, logs, jobs, next, n).0.len(),
    decreases n - m, n,
{
    if m < n {
        lemma_hauls_longer(ws, logs, jobs, next, m, n - 1);
    } else if n > 0 {
        lemma_hauls_longer(ws, logs, jobs, next, n - 1, n - 1);
    }
}

/// How many jobs publishing for the first `n` logs adds.
pub open spec fn hauls_added(ws: Seq<WarehouseStore>, logs: Seq<LogItem>, jobs: Seq<Job>, next: u64, n: int) -> int {
    hauls_published(ws, logs, jobs, next, n).0.len() - jobs.len()
}

proof fn lemma_hauls_grow(ws: Seq<WarehouseStore>, logs: Seq<LogItem>, jobs: Seq<Job>, next: u64, n: int)
    requires
        0 <= n <= logs.len(),
        next + hauls_added(ws, logs, jobs, next, n) <= u64::MAX,
    ensures
        ({
            let r = hauls_published(ws, logs, jobs, next, n);
            &&& jobs.len() <= r.0.len() <= jobs.len() + n
            &&& forall|k: int| 0 <= k < jobs.len() ==> #[trigger] r.0[k] == jobs[k]
            &&& r.1 == next + (r.0.len() - jobs.len())
            &&& forall|k: int| jobs.len() <= k < r.0.len() ==> #[trigger] fresh_haul(r.0, jobs.len() as int, next, k)
            &&& ws.len() > 0 ==> forall|m: int| 0 <= m < n && !logs[m].carried ==> #[trigger] haul_at(r.0, logs[m].pos)
        }),
    decreases n,
{
    if n > 0 {
        lemma_hauls_longer(ws, logs, jobs, next, n - 1, n);
        lemma_hauls_grow(ws, logs, jobs, next, n - 1);
        let prev = hauls_published(ws, logs, jobs, next, n - 1);
        let r = hauls_published(ws, logs, jobs, next, n);
        let log = logs[n - 1];
        crate::types::lemma_nearest_is_closest(ws, log.pos, ws.len() as int);
        if !(log.carried || haul_at(prev.0, log.pos)) && nearest_warehouse(ws, log.pos) is Some {
            let k0 = prev.0.len() as int;
            assert(r.0 == prev.0.push(r.0[k0]));
            assert(r.0.take(k0) =~= prev.0);
            assert forall|k: int| jobs.len() <= k < r.0.len() implies #[trigger] fresh_haul(r.0, jobs.len() as int, next, k) by {
                if k < k0 {
                    assert(r.0[k] == prev.0[k]);
                    assert(fresh_haul(prev.0, jobs.len() as int, next, k));
                    assert(r.0.take(k) =~= prev.0.take(k));
                }
            }
            assert(hauls_from(r.0[k0].kind, log.pos));
            assert forall|m: int| 0 <= m < n && !logs[m].carried && ws.len() > 0 implies #[trigger] haul_at(r.0, logs[m].pos) by {
                if m < n - 1 {
                    assert(haul_at(prev.0, logs[m].pos));
                    let q = choose|q: int| 0 <= q < prev.0.len() && #[trigger] hauls_from(prev.0[q].kind, logs[m].pos);
                    assert(r.0[q] == prev.0[q]);
                }
            }
        } else {
            assert(r == prev);
        }
    }
}

proof fn lemma_hauls_idle(ws: Seq<WarehouseStore>, logs: Seq<LogItem>, jobs: Seq<Job>, next: u64, n: int)
    requires
        0 <= n <= logs.len(),
        forall|m: int| 0 <= m < logs.len() && !logs[m].carried ==> #[trigger] haul_at(jobs, logs[m].pos),
    ensures
        hauls_published(ws, logs, jobs, next, n) == (jobs, next),
    decreases n,
{
    if n > 0 {
        lemma_hauls_idle(ws, logs, jobs, next, n - 1);
        if !logs[n - 1].carried {
            assert(haul_at(jobs, logs[n - 1].pos));
        }
    }
}

proof fn lemma_hauls_none(ws: Seq<WarehouseStore>, logs: Seq<LogItem>, jobs: Seq<Job>, next: u64, n: int)
    requires
        ws.len() == 0,
        0 <= n <= logs.len(),
    ensures
        hauls_published(ws, logs, jobs, next, n) == (jobs, next),
    decreases n,
{
    if n > 0 {
        lemma_hauls_none(ws, logs, jobs, next, n - 1);
        crate::types::lemma_nearest_is_closest(ws, logs[n - 1].pos, 0);
    }
}

/// Publishing hauling jobs keeps the old jobs in front and adds only open
/// hauling jobs numbered in turn from the next id, each the first to haul
/// from its tile; with no warehouse it adds nothing, with one it leaves
/// every free log with a job hauling from its tile; and publishing again at
/// once adds nothing. (The ids handed out must fit a `u64`.)
pub proof fn lemma_haul_publishing(ws: Seq<WarehouseStore>, logs: Seq<LogItem>, jobs: Seq<Job>, next: u64)
    requires
        next + hauls_added(ws, logs, jobs, next, logs.len() as int) <= u64::MAX,
    ensures
        ({
            let r = hauls_published(ws, logs, jobs, next, logs.len() as int);
            &&& ws.len() == 0 ==> r == (jobs, next)
            &&& r.0.len() >= jobs.len()
            &&& forall|k: int| 0 <= k < jobs.len() ==> #[trigger] r.0[k] == jobs[k]
            &&& r.1 == next + (r.0.len() - jobs.len())
            &&& forall|k: int| jobs.len() <= k < r.0.len() ==> #[trigger] fresh_haul(r.0, jobs.len() as int, next, k)
            &&& ws.len() > 0 ==> forall|m: int| 0 <= m < logs.len() && !logs[m].carried ==> #[trigger] haul_at(r.0, logs[m].pos)
            &&& hauls_published(ws, logs, r.0, r.1, logs.len() as int) == r
        }),
{
    let n = logs.len() as int;
    lemma_hauls_grow(ws, logs, jobs, next, n);
    let r = hauls_published(ws, logs, jobs, next, n);
    if ws.len() == 0 {
        lemma_hauls_none(ws, logs, jobs, next, n);
    } else {
        lemma_hauls_idle(ws, logs, r.0, r.1, n);
    }
}

/// Whether some job hauls a log from `p`.
pub fn any_haul_from(jobs: &Vec<Job>, p: Pos) -> (r: bool)
    ensures
        r == haul_at(jobs@, p),
{
    let mut i: usize = 0;
    while i < jobs.len()
        invariant
            i <= jobs.len(),
            forall|k: int| 0 <= k < i ==> !#[trigger] hauls_from(jobs@[k].kind, p),
        decreases jobs.len() - i,
    {
        if let JobKind::HaulWood { from, .. } = jobs[i].kind {
            if from == p {
                assert(hauls_from(jobs@[i as int].kind, p));
                return true;
            }
        }
        i += 1;
    }
    false
}

/// Publish a hauling job for every free log that has none, when there is a
/// warehouse to bring it to.
pub fn generate_haul_jobs(
    jobs: &mut Vec<Job>,
    logs_on_ground: &Vec<LogItem>,
    warehouses: &Vec<WarehouseStore>,
    next_job_id: &mut u64,
)
    requires
        *old(next_job_id) + logs_on_ground.len() <= u64::MAX,
    ensures
        warehouses.len() == 0 ==> final(jobs)@ == old(jobs)@ && *final(next_job_id) == *old(next_job_id),
        warehouses.len() > 0 ==> (final(jobs)@, *final(next_job_id)) == hauls_published(
            warehouses@,
            logs_on_ground@,
            old(jobs)@,
            *old(next_job_id),
            logs_on_ground.len() as int,
        ),
{
    if warehouses.len() == 0 {
        return ;
    }
    let ghost jobs0 = jobs@;
    let ghost next0 = *next_job_id;
    let mut i: usize = 0;
    while i < logs_on_ground.len()
        invariant
            i <= logs_on_ground.len(),
            next0 + logs_on_ground.len() <= u64::MAX,
            *next_job_id <= next0 + i,
            (jobs@, *next_job_id) == hauls_published(warehouses@, logs_on_ground@, jobs0, next0, i as int),
        decreases logs_on_ground.len() - i,
    {
        let li = logs_on_ground[i];
        if !li.carried && !any_haul_from(jobs, li.pos) {
            if let Some(dst) = find_nearest_warehouse(warehouses, li.pos) {
                let id = *next_job_id;
                *next_job_id = id + 1;
                jobs.push(Job { id, kind: JobKind::HaulWood { from: li.pos, to: dst }, taken: false, done: false });
            }
        }
        i += 1;
    }
}

// ---------------------------------------------------------------- walking

/// Milliseconds a step onto `p` takes: a road is fastest, then grass, then
/// forest.
pub open spec fn step_time(w: World, p: Pos) -> int {
    if w.road_at(p) {
        300
    } else {
        match w.tile_at(p) {
            TileKind::Grass => 450,
            TileKind::Forest => 600,
            TileKind::Water => 300,
        }
    }
}

/// Milliseconds a step onto `p` takes.
pub fn step_ms_onto(world: &World, p: Pos) -> (r: i32)
    ensures
        r == step_time(*world, p),
{
    if world.is_road(p) {
        300
    } else {
        match world.get_tile(p.x, p.y) {
            TileKind::Grass => 450,
            TileKind::Forest => 600,
            TileKind::Water => 300,
        }
    }
}

/// One tick of walking, `step_ms` long: at a waypoint the citizen aims at
/// the next one of its path, or stops at the end of it; water with no
/// bridge stops it and drops its path; otherwise the step advances and the
/// citizen enters the target tile once the step's time is spent.
pub open spec fn walked(w: World, c: Citizen, step_ms: int, c2: Citizen) -> bool {
    if c.pos == c.target {
        if c.path_index + 1 < c.path@.len() {
            c2 == Citizen {
                path_index: (c.path_index + 1) as usize,
                target: c.path@[c.path_index + 1],
                progress: 0,
                ..c
            }
        } else {
            c2 == Citizen { moving: false, progress: 0, ..c }
        }
    } else if w.tile_at(c.target) == TileKind::Water && !w.road_at(c.target) {
        &&& c2.path@.len() == 0
        &&& c2 == Citizen { moving: false, progress: 0, path: c2.path, ..c }
    } else if c.progress + step_ms >= step_time(w, c.target) {
        c2 == Citizen { pos: c.target, progress: 0, ..c }
    } else {
        c2 == Citizen { progress: (c.progress + step_ms) as i32, ..c }
    }
}

/// Walk a moving citizen for one tick.
pub fn update_movement(step_ms: i32, c: &mut Citizen, world: &World)
    requires
        0 <= step_ms,
        old(c).progress + step_ms <= i32::MAX,
    ensures
        walked(*world, *old(c), step_ms as int, *final(c)),
{
    if c.pos == c.target {
        if c.path.len() > 0 && c.path_index < c.path.len() - 1 {
            c.path_index += 1;
            c.target = c.path[c.path_index];
            c.progress = 0;
        } else {
            c.moving = false;
            c.progress = 0;
        }
    } else {
        let target = c.target;
        let on_road = world.is_road(target);
        let tile = world.get_tile(target.x, target.y);
        if tile == TileKind::Water && !on_road {
            c.moving = false;
            c.progress = 0;
            c.path.clear();
            return ;
        }
        let step_time_ms: i32 = if on_road {
            300
        } else {
            match tile {
                TileKind::Grass => 450,
                TileKind::Forest => 600,
                TileKind::Water => 300,
            }
        };
        c.progress = c.progress + step_ms;
        if c.progress >= step_time_ms {
            c.pos = target;
            c.progress = 0;
        }
    }
}

/// What a standing citizen does on arrival: an idle worker starts work at
/// its workplace when fed, or heads there; a commuter at its workplace
/// works when fed and idles otherwise; a citizen reaching home falls
/// asleep; a worker away from its workplace, or without one, idles.
pub open spec fn arrived(w: World, c: Citizen, c2: Citizen) -> bool {
    match c.state {
        CitizenState::Idle => match c.workplace {
            Some(wp) => if c.pos == wp {
                c2 == if c.fed_today {
                    Citizen { state: CitizenState::Working, ..c }
                } else {
                    c
                }
            } else if !c.moving {
                c2.state == CitizenState::GoingToWork && route_planned(w, c, Citizen { state: c.state, ..c2 }, wp)
            } else {
                c2 == c
            },
            None => c2 == c,
        },
        CitizenState::GoingToWork => match c.workplace {
            Some(wp) => c2 == if c.pos == wp {
                Citizen {
                    state: if c.fed_today {
                        CitizenState::Working
                    } else {
                        CitizenState::Idle
                    },
                    ..c
                }
            } else {
                c
            },
            None => c2 == c,
        },
        CitizenState::GoingHome => c2 == if c.pos == c.home {
            Citizen { state: CitizenState::Sleeping, ..c }
        } else {
            c
        },
        CitizenState::Working => match c.workplace {
            Some(wp) => c2 == if c.pos != wp && !c.moving {
                Citizen { state: CitizenState::Idle, ..c }
            } else {
                c
            },
            None => c2 == Citizen { state: CitizenState::Idle, ..c },
        },
        _ => c2 == c,
    }
}

/// Change the state of a citizen that stands still.
pub fn handle_arrival_state(c: &mut Citizen, world: &World)
    ensures
        arrived(*world, *old(c), *final(c)),
{
    match c.state {
        CitizenState::Idle => {
            if let Some(workplace) = c.workplace {
                if c.pos == workplace {
                    if c.fed_today {
                        c.state = CitizenState::Working;
                    }
                } else if !c.moving {
                    plan_path(world, c, workplace);
                    c.state = CitizenState::GoingToWork;
                }
            }
        },
        CitizenState::GoingToWork => {
            if let Some(workplace) = c.workplace {
                if c.pos == workplace {
                    if c.fed_today {
                        c.state = CitizenState::Working;
                    } else {
                        c.state = CitizenState::Idle;
                    }
                }
            }
        },
        CitizenState::GoingHome => {
            if c.pos == c.home {
                c.state = CitizenState::Sleeping;
            }
        },
        CitizenState::Working => {
            if let Some(workplace) = c.workplace {
                if c.pos != workplace && !c.moving {
                    c.state = CitizenState::Idle;
                }
            } else {
                c.state = CitizenState::Idle;
            }
        },
        _ => {},
    }
}

/// A standing citizen's idle clock after `step_ms` more: past five seconds
/// it drops its job and its log and starts counting again.
pub open spec fn idled(c: Citizen, step_ms: int) -> Citizen {
    let t = c.idle_timer_ms + step_ms;
    if t > 5000 {
        Citizen { idle_timer_ms: 0, progress: 0, assigned_job: None, carrying_log: false, ..c }
    } else {
        Citizen { idle_timer_ms: t as i32, progress: 0, ..c }
    }
}

/// One tick of movement for a citizen: a standing one counts idle time and
/// reacts to where it stands; a moving one walks.
pub open spec fn moved(w: World, step_ms: int, c: Citizen, c2: Citizen) -> bool {
    if !c.moving {
        arrived(w, idled(c, step_ms), c2)
    } else {
        walked(w, Citizen { idle_timer_ms: 0, ..c }, step_ms, c2)
    }
}

/// The tick fits the citizen's clocks.
pub open spec fn clocks_fit(c: Citizen, step_ms: int) -> bool {
    if c.moving {
        c.progress + step_ms <= i32::MAX
    } else {
        c.idle_timer_ms + step_ms <= i32::MAX
    }
}

/// Whether a tick of `step_ms` keeps the citizen's clock an `i32`, as
/// `clocks_fit` states.
pub fn clock_fits(c: &Citizen, step_ms: i32) -> (b: bool)
    ensures
        b == clocks_fit(*c, step_ms as int),
{
    let clock: i64 = if c.moving { c.progress as i64 } else { c.idle_timer_ms as i64 };
    clock + step_ms as i64 <= i32::MAX as i64
}

/// Move every citizen for one tick of `step_ms` milliseconds.
pub fn update_citizen_movement(step_ms: i32, citizens: &mut Vec<Citizen>, world: &mut World)
    requires
        0 <= step_ms,
        forall|i: int| 0 <= i < old(citizens).len() ==> clocks_fit(#[trigger] old(citizens)@[i], step_ms as int),
    ensures
        *final(world) == *old(world),
        final(citizens).len() == old(citizens).len(),
        forall|i: int|
            0 <= i < old(citizens).len() ==> moved(*old(world), step_ms as int, #[trigger] old(citizens)@[i], final(citizens)@[i]),
{
    let ghost cs0 = citizens@;
    let n = citizens.len();
    let mut i: usize = 0;
    while i < n
        invariant
            i <= n,
            n == citizens.len(),
            n == cs0.len(),
            0 <= step_ms,
            forall|k: int| 0 <= k < n ==> clocks_fit(#[trigger] cs0[k], step_ms as int),
            forall|k: int| i <= k < n ==> #[trigger] citizens@[k] == cs0[k],
            forall|k: int| 0 <= k < i ==> moved(*world, step_ms as int, #[trigger] cs0[k], citizens@[k]),
        decreases n - i,
    {
        let ghost before = citizens@;
        assert(clocks_fit(cs0[i as int], step_ms as int));
        if !citizens[i].moving {
            citizens[i].idle_timer_ms = citizens[i].idle_timer_ms + step_ms;
            citizens[i].progress = 0;
            if citizens[i].idle_timer_ms > 5000 {
                citizens[i].assigned_job = None;
                citizens[i].carrying_log = false;
                citizens[i].idle_timer_ms = 0;
            }
            proof {
                assert(citizens@[i as int] == idled(cs0[i as int], step_ms as int));
            }
            handle_arrival_state(&mut citizens[i], world);
        } else {
            citizens[i].idle_timer_ms = 0;
            update_movement(step_ms, &mut citizens[i], world);
        }
        proof {
            assert forall|k: int| 0 <= k < i + 1 implies moved(*world, step_ms as int, #[trigger] cs0[k], citizens@[k]) by {
                if k < i {
                    assert(citizens@[k] == before[k]);
                }
            }
        }
        i += 1;
    }
}

// ---------------------------------------------------------------- production

/// Index of the first building at or after `i` standing on `p`, or -1.
pub open spec fn building_index_from(bs: Seq<Building>, p: Pos, i: int) -> int
    decreases bs.len() - i,
{
    if i < 0 || i >= bs.len() {
        -1
    } else if bs[i].pos == p {
        i
    } else {
        building_index_from(bs, p, i + 1)
    }
}

pub proof fn lemma_building_index(bs: Seq<Building>, p: Pos, i: int)
    requires
        0 <= i <= bs.len(),
    ensures
        -1 <= building_index_from(bs, p, i) < bs.len(),
        building_index_from(bs, p, i) >= 0 ==> bs[building_index_from(bs, p, i)].pos == p,
    decreases bs.len() - i,
{
    if i < bs.len() {
        lemma_building_index(bs, p, i + 1);
    }
}

/// Index of the first building standing on `p`.
pub fn find_building(buildings: &Vec<Building>, p: Pos) -> (r: Option<usize>)
    ensures
        match r {
            Some(i) => i == building_index_from(buildings@, p, 0) && i < buildings.len(),
            None => building_index_from(buildings@, p, 0) == -1,
        },
{
    let mut i: usize = 0;
    while i < buildings.len()
        invariant
            i <= buildings.len(),
            building_index_from(buildings@, p, 0) == building_index_from(buildings@, p, i as int),
        decreases buildings.len() - i,
    {
        if buildings[i].pos == p {
            return Some(i);
        }
        i += 1;
    }
    None
}

/// One tick of production for citizen `c`, `step_ms` long, with `cycle[k]`
/// the cycle length at building `k`: only a working citizen takes part; a
/// hungry one stops working; a fed one at its workplace adds the tick to
/// its work clock and works at the first building there as its kind
/// prescribes.
pub open spec fn production_turn(
    bs: Seq<Building>,
    cycle: Seq<i32>,
    step_ms: int,
    w: World,
    ws: Seq<WarehouseStore>,
    c: Citizen,
    w2: World,
    ws2: Seq<WarehouseStore>,
    c2: Citizen,
) -> bool {
    if c.state != CitizenState::Working {
        w2 == w && ws2 == ws && c2 == c
    } else if !c.fed_today {
        w2 == w && ws2 == ws && c2 == Citizen { state: CitizenState::Idle, ..c }
    } else if c.workplace is None || c.pos != c.workplace->0 || building_index_from(bs, c.pos, 0) < 0 {
        w2 == w && ws2 == ws && c2 == c
    } else {
        let k = building_index_from(bs, c.pos, 0);
        let ticked = Citizen { work_timer_ms: (c.work_timer_ms + step_ms) as i32, ..c };
        production_step(building_plan(bs[k].kind), w, w2, ticked, c2, bs[k], ws, ws2, cycle[k], true)
            || production_step(building_plan(bs[k].kind), w, w2, ticked, c2, bs[k], ws, ws2, cycle[k], false)
    }
}

/// Turn `i` of a production round on the states (world, warehouses) left by
/// the citizens before it.
pub open spec fn production_step_at(
    bs: Seq<Building>,
    cycle: Seq<i32>,
    step_ms: int,
    states: Seq<(World, Seq<WarehouseStore>)>,
    cs: Seq<Citizen>,
    cs2: Seq<Citizen>,
    i: int,
) -> bool {
    production_turn(bs, cycle, step_ms, states[i].0, states[i].1, cs[i], states[i + 1].0, states[i + 1].1, cs2[i])
}

/// A production round: the citizens take their turns in order;
/// `states[i]` is the world and the warehouses before citizen `i`.
pub open spec fn production_round(
    bs: Seq<Building>,
    cycle: Seq<i32>,
    step_ms: int,
    w: World,
    ws: Seq<WarehouseStore>,
    cs: Seq<Citizen>,
    w2: World,
    ws2: Seq<WarehouseStore>,
    cs2: Seq<Citizen>,
    states: Seq<(World, Seq<WarehouseStore>)>,
) -> bool {
    &&& cs2.len() == cs.len()
    &&& states.len() == cs.len() + 1
    &&& states[0] == (w, ws)
    &&& states[cs.len() as int] == (w2, ws2)
    &&& forall|i: int| 0 <= i < cs.len() ==> #[trigger] production_step_at(bs, cycle, step_ms, states, cs, cs2, i)
}

/// The work clock of a working citizen has room for the tick.
pub open spec fn work_clock_fits(c: Citizen, step_ms: int) -> bool {
    c.state == CitizenState::Working ==> c.work_timer_ms + step_ms <= i32::MAX
}

/// Whether a tick of `step_ms` keeps a working citizen's timer an `i32`, as
/// `work_clock_fits` states.
pub fn work_timer_fits(c: &Citizen, step_ms: i32) -> (b: bool)
    ensures
        b == work_clock_fits(*c, step_ms as int),
{
    c.state != CitizenState::Working || c.work_timer_ms as i64 + step_ms as i64 <= i32::MAX as i64
}

/// Let every working citizen work one tick of `step_ms` milliseconds at its
/// workplace; `cycle_ms[k]` is the current cycle length of building `k`.
pub fn update_production(
    step_ms: i32,
    citizens: &mut Vec<Citizen>,
    buildings: &Vec<Building>,
    warehouses: &mut Vec<WarehouseStore>,
    world: &mut World,
    cycle_ms: &Vec<i32>,
)
    requires
        0 <= step_ms,
        cycle_ms.len() == buildings.len(),
        forall|k: int| 0 <= k < buildings.len() ==> pos_in_range(#[trigger] buildings@[k].pos),
        forall|i: int| 0 <= i < old(citizens).len() ==> work_clock_fits(#[trigger] old(citizens)@[i], step_ms as int),
    ensures
        exists|states: Seq<(World, Seq<WarehouseStore>)>|
            #[trigger] production_round(
                buildings@,
                cycle_ms@,
                step_ms as int,
                *old(world),
                old(warehouses)@,
                old(citizens)@,
                *final(world),
                final(warehouses)@,
                final(citizens)@,
                states,
            ),
{
    let ghost cs0 = citizens@;
    let ghost w0 = *world;
    let ghost ws0 = warehouses@;
    let ghost mut states: Seq<(World, Seq<WarehouseStore>)> = seq![(*world, warehouses@)];
    let n = citizens.len();
    let mut i: usize = 0;
    while i < n
        invariant
            i <= n,
            n == citizens.len(),
            n == cs0.len(),
            0 <= step_ms,
            cycle_ms.len() == buildings.len(),
            forall|k: int| 0 <= k < buildings.len() ==> pos_in_range(#[trigger] buildings@[k].pos),
            forall|k: int| 0 <= k < n ==> work_clock_fits(#[trigger] cs0[k], step_ms as int),
            states.len() == i + 1,
            states[0] == (w0, ws0),
            states[i as int] == (*world, warehouses@),
            forall|k: int| i <= k < n ==> #[trigger] citizens@[k] == cs0[k],
            forall|k: int|
                0 <= k < i ==> #[trigger] production_step_at(buildings@, cycle_ms@, step_ms as int, states, cs0, citizens@, k),
        decreases n - i,
    {
        let ghost before = citizens@;
        let ghost w_before = *world;
        let ghost ws_before = warehouses@;
        assert(work_clock_fits(cs0[i as int], step_ms as int));
        if citizens[i].state == CitizenState::Working {
            if !citizens[i].fed_today {
                citizens[i].state = CitizenState::Idle;
            } else if let Some(wp) = citizens[i].workplace {
                if citizens[i].pos == wp {
                    if let Some(k) = find_building(buildings, wp) {
                        citizens[i].work_timer_ms = citizens[i].work_timer_ms + step_ms;
                        let b = &buildings[k];
                        let strategy = create_production_strategy(b.kind);
                        let _ = strategy.process_production(&mut citizens[i], b, warehouses, world, cycle_ms[k]);
                    }
                }
            }
        }
        proof {
            let old_states = states;
            states = states.push((*world, warehouses@));
            assert(production_turn(
                buildings@,
                cycle_ms@,
                step_ms as int,
                w_before,
                ws_before,
                cs0[i as int],
                *world,
                warehouses@,
                citizens@[i as int],
            ));
            assert forall|k: int| 0 <= k < i + 1 implies #[trigger] production_step_at(
                buildings@,
                cycle_ms@,
                step_ms as int,
                states,
                cs0,
                citizens@,
                k,
            ) by {
                if k < i {
                    assert(production_step_at(buildings@, cycle_ms@, step_ms as int, old_states, cs0, before, k));
                    assert(states[k] == old_states[k]);
                    assert(states[k + 1] == old_states[k + 1]);
                    assert(citizens@[k] == before[k]);
                }
            }
        }
        i += 1;
    }
    proof {
        assert(production_round(
            buildings@,
            cycle_ms@,
            step_ms as int,
            w0,
            ws0,
            cs0,
            *world,
            warehouses@,
            citizens@,
            states,
        ));
    }
}

} // verus!
