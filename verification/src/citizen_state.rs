//! The citizen's daily routine as a state machine: one behaviour per state,
//! the transitions it takes, and the effects of entering and leaving a state.

use vstd::prelude::*;
use crate::types::{Pos, Citizen, CitizenState, Building};
use crate::world::World;
use crate::game::{plan_path, route_planned};

verus! {

/// What a state's behaviour sees of the world.
pub struct StateContext<'a> {
    pub world: &'a World,
    pub buildings: &'a Vec<Building>,
    pub is_daytime: bool,
}

/// The state a citizen moves to on its regular update, if any.
pub open spec fn update_next(s: CitizenState, c: Citizen, is_daytime: bool) -> Option<CitizenState> {
    match s {
        CitizenState::Idle => match c.workplace {
            Some(wp) => if !c.moving && c.pos != wp {
                Some(CitizenState::GoingToWork)
            } else {
                None
            },
            None => None,
        },
        CitizenState::GoingToWork => match c.workplace {
            Some(wp) => if !c.moving && c.pos == wp {
                Some(if c.fed_today { CitizenState::Working } else { CitizenState::Idle })
            } else {
                None
            },
            None => None,
        },
        CitizenState::Working => match c.workplace {
            Some(wp) => if c.pos != wp || !c.fed_today {
                Some(CitizenState::Idle)
            } else {
                None
            },
            None => Some(CitizenState::Idle),
        },
        CitizenState::GoingToDeposit => if !c.moving && c.carrying is None && c.assigned_job is None {
            Some(if c.workplace is Some { CitizenState::GoingToWork } else { CitizenState::Idle })
        } else {
            None
        },
        CitizenState::GoingToFetch => if !c.moving && c.carrying is Some {
            Some(if c.workplace is Some { CitizenState::GoingToWork } else { CitizenState::Idle })
        } else {
            None
        },
        CitizenState::GoingHome => if !c.moving && c.pos == c.home {
            Some(CitizenState::Sleeping)
        } else {
            None
        },
        CitizenState::Sleeping => if is_daytime && c.pos == c.home {
            Some(CitizenState::Idle)
        } else {
            None
        },
    }
}

/// No citizen starts working unfed: the update leads into `Working` only
/// for a fed citizen standing still at its workplace, and a working citizen
/// that has not been fed, or has left its workplace, stops and goes idle. A
/// fed citizen arriving at its workplace starts working.
pub proof fn lemma_only_fed_citizens_work(s: CitizenState, c: Citizen, is_daytime: bool)
    ensures
        update_next(s, c, is_daytime) == Some(CitizenState::Working) ==> c.fed_today && !c.moving
            && c.workplace == Some(c.pos) && s == CitizenState::GoingToWork,
        s == CitizenState::Working && (!c.fed_today || c.workplace != Some(c.pos)) ==> update_next(
            s,
            c,
            is_daytime,
        ) == Some(CitizenState::Idle),
        s == CitizenState::GoingToWork && c.fed_today && !c.moving && c.workplace == Some(c.pos) ==> update_next(
            s,
            c,
            is_daytime,
        ) == Some(CitizenState::Working),
        s == CitizenState::GoingToWork && !c.fed_today && !c.moving && c.workplace == Some(c.pos) ==> update_next(
            s,
            c,
            is_daytime,
        ) == Some(CitizenState::Idle),
{
}

/// The shape of the daily routine: an update that asks for a state always
/// asks for a different one; only a citizen walking home and standing at
/// home goes to sleep; a sleeper wakes, idle, only by day and at home;
/// heading for work needs a workplace; and a fed worker standing at its
/// workplace keeps working.
pub proof fn lemma_routine_shape(s: CitizenState, c: Citizen, is_daytime: bool)
    ensures
        update_next(s, c, is_daytime) matches Some(n) ==> n != s,
        update_next(s, c, is_daytime) == Some(CitizenState::Sleeping) ==> s == CitizenState::GoingHome && !c.moving
            && c.pos == c.home,
        s == CitizenState::Sleeping && update_next(s, c, is_daytime) is Some ==> is_daytime && c.pos == c.home
            && update_next(s, c, is_daytime) == Some(CitizenState::Idle),
        update_next(s, c, is_daytime) == Some(CitizenState::GoingToWork) ==> c.workplace is Some,
        s == CitizenState::Working && c.fed_today && c.workplace == Some(c.pos) ==> update_next(s, c, is_daytime)
            is None,
        update_next(s, c, is_daytime) == Some(CitizenState::GoingToDeposit) ==> false,
        update_next(s, c, is_daytime) == Some(CitizenState::GoingToFetch) ==> false,
{
}

/// Where the regular update sends the citizen, if anywhere: an idle citizen
/// with a workplace elsewhere heads there.
pub open spec fn update_goal(s: CitizenState, c: Citizen) -> Option<Pos> {
    match s {
        CitizenState::Idle => match c.workplace {
            Some(wp) => if !c.moving && c.pos != wp {
                Some(wp)
            } else {
                None
            },
            None => None,
        },
        _ => None,
    }
}

/// `after` is `before` sent to `goal`, or unchanged when there is no goal.
pub open spec fn routed(w: World, before: Citizen, after: Citizen, goal: Option<Pos>) -> bool {
    match goal {
        Some(g) => route_planned(w, before, after, g),
        None => after == before,
    }
}

/// Effect of entering a state: going home drops the job and the carried
/// log; falling asleep drops the workplace (unless pinned), the work timer
/// and the cargo.
pub open spec fn enter_effect(s: CitizenState, c: Citizen) -> Citizen {
    match s {
        CitizenState::GoingHome => Citizen { assigned_job: None, carrying_log: false, ..c },
        CitizenState::Sleeping => Citizen {
            workplace: if c.manual_workplace { c.workplace } else { None },
            work_timer_ms: 0,
            carrying: None,
            ..c
        },
        _ => c,
    }
}

/// Effect of leaving a state: waking up stops any movement.
pub open spec fn exit_effect(s: CitizenState, c: Citizen) -> Citizen {
    match s {
        CitizenState::Sleeping => Citizen { moving: false, ..c },
        _ => c,
    }
}

/// Whether a citizen in this state can take a job: idle or working
/// citizens that are fed and standing still.
pub open spec fn accepts_job(s: CitizenState, c: Citizen) -> bool {
    match s {
        CitizenState::Idle => !c.moving && c.fed_today,
        CitizenState::Working => c.fed_today && !c.moving,
        _ => false,
    }
}

/// The citizen with its job and carried log dropped, as at nightfall.
pub open spec fn night_dropped(c: Citizen) -> Citizen {
    Citizen { assigned_job: None, carrying_log: false, ..c }
}

/// Where nightfall sends a citizen: home, when it is elsewhere and standing still.
pub open spec fn night_goal(c: Citizen) -> Option<Pos> {
    if c.pos != c.home && !c.moving {
        Some(c.home)
    } else {
        None
    }
}

/// The state nightfall puts a citizen in.
pub open spec fn night_next(c: Citizen) -> CitizenState {
    if c.pos != c.home {
        CitizenState::GoingHome
    } else {
        CitizenState::Sleeping
    }
}

/// Where dawn sends a citizen: to its pinned workplace, when it stands still.
pub open spec fn dawn_goal(c: Citizen, is_daytime: bool) -> Option<Pos> {
    if is_daytime && c.manual_workplace && c.workplace is Some && !c.moving {
        Some(c.workplace->Some_0)
    } else {
        None
    }
}

/// The state dawn puts a citizen in, if any.
pub open spec fn dawn_next(c: Citizen, is_daytime: bool) -> Option<CitizenState> {
    if !is_daytime {
        None
    } else if c.manual_workplace && c.workplace is Some && !c.moving {
        Some(CitizenState::GoingToWork)
    } else {
        Some(CitizenState::Idle)
    }
}

/// The citizen after switching from state `from` to `to`.
pub open spec fn switched(from: CitizenState, to: CitizenState, c: Citizen) -> Citizen {
    Citizen { state: to, ..enter_effect(to, exit_effect(from, c)) }
}

/// Behaviour of a citizen in one state of its routine.
pub trait CitizenStateBehavior {
    /// The state this behaviour implements.
    spec fn kind(&self) -> CitizenState;

    /// Regular update: the state to move to, if any.
    fn update(&mut self, citizen: &mut Citizen, context: &StateContext) -> (r: Option<CitizenState>)
        ensures
            r == update_next(old(self).kind(), *old(citizen), context.is_daytime),
            routed(*context.world, *old(citizen), *final(citizen), update_goal(old(self).kind(), *old(citizen))),
            final(self).kind() == old(self).kind(),
    ;

    /// Called when the citizen enters this state.
    fn on_enter(&mut self, citizen: &mut Citizen, context: &StateContext)
        ensures
            *final(citizen) == enter_effect(old(self).kind(), *old(citizen)),
            final(self).kind() == old(self).kind(),
    ;

    /// Called when the citizen leaves this state.
    fn on_exit(&mut self, citizen: &mut Citizen, context: &StateContext)
        ensures
            *final(citizen) == exit_effect(old(self).kind(), *old(citizen)),
            final(self).kind() == old(self).kind(),
    ;

    fn state_type(&self) -> (r: CitizenState)
        ensures
            r == self.kind(),
    ;

    /// Whether a job can be given to the citizen in this state.
    fn can_accept_job(&self, citizen: &Citizen) -> (r: bool)
        ensures
            r == accepts_job(self.kind(), *citizen),
    ;

    /// Nightfall: drop the job and the carried log, then head home (or sleep
    /// when already there).
    fn handle_night(&mut self, citizen: &mut Citizen, context: &StateContext) -> (r: Option<CitizenState>)
        ensures
            r == Some(night_next(*old(citizen))),
            routed(*context.world, night_dropped(*old(citizen)), *final(citizen), night_goal(*old(citizen))),
    {
        citizen.assigned_job = None;
        citizen.carrying_log = false;
        if citizen.pos != citizen.home {
            if !citizen.moving {
                let home = citizen.home;
                plan_path(context.world, citizen, home);
            }
            Some(CitizenState::GoingHome)
        } else {
            Some(CitizenState::Sleeping)
        }
    }

    /// Dawn: a citizen with a pinned workplace heads there, the others idle.
    fn handle_dawn(&mut self, citizen: &mut Citizen, context: &StateContext) -> (r: Option<CitizenState>)
        ensures
            r == dawn_next(*old(citizen), context.is_daytime),
            routed(*context.world, *old(citizen), *final(citizen), dawn_goal(*old(citizen), context.is_daytime)),
    {
        if context.is_daytime {
            if citizen.manual_workplace {
                if let Some(workplace) = citizen.workplace {
                    if !citizen.moving {
                        plan_path(context.world, citizen, workplace);
                        return Some(CitizenState::GoingToWork);
                    }
                }
            }
            return Some(CitizenState::Idle);
        }
        None
    }
}

/// Waiting for work.
pub struct IdleState;

/// On the way to the workplace.
pub struct GoingToWorkState;

/// Working at the workplace.
pub struct WorkingState;

/// Carrying goods to a warehouse.
pub struct GoingToDepositState;

/// Fetching input goods from a warehouse.
pub struct GoingToFetchState;

/// On the way home for the night.
pub struct GoingHomeState;

/// Asleep at home.
pub struct SleepingState;

impl CitizenStateBehavior for IdleState {
    open spec fn kind(&self) -> CitizenState {
        CitizenState::Idle
    }

    fn update(&mut self, citizen: &mut Citizen, context: &StateContext) -> (r: Option<CitizenState>) {
        if let Some(workplace) = citizen.workplace {
            if !citizen.moving && citizen.pos != workplace {
                plan_path(context.world, citizen, workplace);
                return Some(CitizenState::GoingToWork);
            }
        }
        None
    }

    fn on_enter(&mut self, citizen: &mut Citizen, context: &StateContext) {
    }

    fn on_exit(&mut self, citizen: &mut Citizen, context: &StateContext) {
    }

    fn state_type(&self) -> (r: CitizenState) {
        CitizenState::Idle
    }

    fn can_accept_job(&self, citizen: &Citizen) -> (r: bool) {
        !citizen.moving && citizen.fed_today
    }
}

impl CitizenStateBehavior for GoingToWorkState {
    open spec fn kind(&self) -> CitizenState {
        CitizenState::GoingToWork
    }

    fn update(&mut self, citizen: &mut Citizen, context: &StateContext) -> (r: Option<CitizenState>) {
        if !citizen.moving {
            if let Some(workplace) = citizen.workplace {
                if citizen.pos == workplace {
                    if citizen.fed_today {
                        return Some(CitizenState::Working);
                    } else {
                        return Some(CitizenState::Idle);
                    }
                }
            }
        }
        None
    }

    fn on_enter(&mut self, citizen: &mut Citizen, context: &StateContext) {
    }

    fn on_exit(&mut self, citizen: &mut Citizen, context: &StateContext) {
    }

    fn state_type(&self) -> (r: CitizenState) {
        CitizenState::GoingToWork
    }

    fn can_accept_job(&self, citizen: &Citizen) -> (r: bool) {
        false
    }
}

impl CitizenStateBehavior for WorkingState {
    open spec fn kind(&self) -> CitizenState {
        CitizenState::Working
    }

    fn update(&mut self, citizen: &mut Citizen, context: &StateContext) -> (r: Option<CitizenState>) {
        if let Some(workplace) = citizen.workplace {
            if citizen.pos != workplace {
                return Some(CitizenState::Idle);
            }
        } else {
            return Some(CitizenState::Idle);
        }
        if !citizen.fed_today {
            return Some(CitizenState::Idle);
        }
        None
    }

    fn on_enter(&mut self, citizen: &mut Citizen, context: &StateContext) {
    }

    fn on_exit(&mut self, citizen: &mut Citizen, context: &StateContext) {
    }

    fn state_type(&self) -> (r: CitizenState) {
        CitizenState::Working
    }

    fn can_accept_job(&self, citizen: &Citizen) -> (r: bool) {
        citizen.fed_today && !citizen.moving
    }
}

impl CitizenStateBehavior for GoingToDepositState {
    open spec fn kind(&self) -> CitizenState {
        CitizenState::GoingToDeposit
    }

    fn update(&mut self, citizen: &mut Citizen, context: &StateContext) -> (r: Option<CitizenState>) {
        if !citizen.moving {
            if citizen.carrying.is_none() && citizen.assigned_job.is_none() {
                if citizen.workplace.is_some() {
                    return Some(CitizenState::GoingToWork);
                } else {
                    return Some(CitizenState::Idle);
                }
            }
        }
        None
    }

    fn on_enter(&mut self, citizen: &mut Citizen, context: &StateContext) {
    }

    fn on_exit(&mut self, citizen: &mut Citizen, context: &StateContext) {
    }

    fn state_type(&self) -> (r: CitizenState) {
        CitizenState::GoingToDeposit
    }

    fn can_accept_job(&self, citizen: &Citizen) -> (r: bool) {
        false
    }
}

impl CitizenStateBehavior for GoingToFetchState {
    open spec fn kind(&self) -> CitizenState {
        CitizenState::GoingToFetch
    }

    fn update(&mut self, citizen: &mut Citizen, context: &StateContext) -> (r: Option<CitizenState>) {
        if !citizen.moving {
            if citizen.carrying.is_some() {
                if citizen.workplace.is_some() {
                    return Some(CitizenState::GoingToWork);
                } else {
                    return Some(CitizenState::Idle);
                }
            }
        }
        None
    }

    fn on_enter(&mut self, citizen: &mut Citizen, context: &StateContext) {
    }

    fn on_exit(&mut self, citizen: &mut Citizen, context: &StateContext) {
    }

    fn state_type(&self) -> (r: CitizenState) {
        CitizenState::GoingToFetch
    }

    fn can_accept_job(&self, citizen: &Citizen) -> (r: bool) {
        false
    }
}

impl CitizenStateBehavior for GoingHomeState {
    open spec fn kind(&self) -> CitizenState {
        CitizenState::GoingHome
    }

    fn update(&mut self, citizen: &mut Citizen, context: &StateContext) -> (r: Option<CitizenState>) {
        if !citizen.moving && citizen.pos == citizen.home {
            return Some(CitizenState::Sleeping);
        }
        None
    }

    fn on_enter(&mut self, citizen: &mut Citizen, context: &StateContext) {
        citizen.assigned_job = None;
        citizen.carrying_log = false;
    }

    fn on_exit(&mut self, citizen: &mut Citizen, context: &StateContext) {
    }

    fn state_type(&self) -> (r: CitizenState) {
        CitizenState::GoingHome
    }

    fn can_accept_job(&self, citizen: &Citizen) -> (r: bool) {
        false
    }
}

impl CitizenStateBehavior for SleepingState {
    open spec fn kind(&self) -> CitizenState {
        CitizenState::Sleeping
    }

    fn update(&mut self, citizen: &mut Citizen, context: &StateContext) -> (r: Option<CitizenState>) {
        if context.is_daytime {
            if citizen.pos == citizen.home {
                return Some(CitizenState::Idle);
            }
        }
        None
    }

    fn on_enter(&mut self, citizen: &mut Citizen, context: &StateContext) {
        if !citizen.manual_workplace {
            citizen.workplace = None;
        }
        citizen.work_timer_ms = 0;
        citizen.carrying = None;
    }

    fn on_exit(&mut self, citizen: &mut Citizen, context: &StateContext) {
        citizen.moving = false;
    }

    fn state_type(&self) -> (r: CitizenState) {
        CitizenState::Sleeping
    }

    fn can_accept_job(&self, citizen: &Citizen) -> (r: bool) {
        false
    }
}

/// Regular update of the behaviour of `state`.
pub fn state_update(state: CitizenState, citizen: &mut Citizen, context: &StateContext) -> (r: Option<CitizenState>)
    ensures
        r == update_next(state, *old(citizen), context.is_daytime),
        routed(*context.world, *old(citizen), *final(citizen), update_goal(state, *old(citizen))),
{
    match state {
        CitizenState::Idle => IdleState.update(citizen, context),
        CitizenState::GoingToWork => GoingToWorkState.update(citizen, context),
        CitizenState::Working => WorkingState.update(citizen, context),
        CitizenState::GoingToDeposit => GoingToDepositState.update(citizen, context),
        CitizenState::GoingToFetch => GoingToFetchState.update(citizen, context),
        CitizenState::GoingHome => GoingHomeState.update(citizen, context),
        CitizenState::Sleeping => SleepingState.update(citizen, context),
    }
}

/// Entry effect of `state`.
pub fn state_enter(state: CitizenState, citizen: &mut Citizen, context: &StateContext)
    ensures
        *final(citizen) == enter_effect(state, *old(citizen)),
{
    match state {
        CitizenState::Idle => IdleState.on_enter(citizen, context),
        CitizenState::GoingToWork => GoingToWorkState.on_enter(citizen, context),
        CitizenState::Working => WorkingState.on_enter(citizen, context),
        CitizenState::GoingToDeposit => GoingToDepositState.on_enter(citizen, context),
        CitizenState::GoingToFetch => GoingToFetchState.on_enter(citizen, context),
        CitizenState::GoingHome => GoingHomeState.on_enter(citizen, context),
        CitizenState::Sleeping => SleepingState.on_enter(citizen, context),
    }
}

/// Exit effect of `state`.
pub fn state_exit(state: CitizenState, citizen: &mut Citizen, context: &StateContext)
    ensures
        *final(citizen) == exit_effect(state, *old(citizen)),
{
    match state {
        CitizenState::Idle => IdleState.on_exit(citizen, context),
        CitizenState::GoingToWork => GoingToWorkState.on_exit(citizen, context),
        CitizenState::Working => WorkingState.on_exit(citizen, context),
        CitizenState::GoingToDeposit => GoingToDepositState.on_exit(citizen, context),
        CitizenState::GoingToFetch => GoingToFetchState.on_exit(citizen, context),
        CitizenState::GoingHome => GoingHomeState.on_exit(citizen, context),
        CitizenState::Sleeping => SleepingState.on_exit(citizen, context),
    }
}

/// Switch the citizen from its state to `to`: leave the old state, enter the
/// new one, record it.
fn switch_state(citizen: &mut Citizen, to: CitizenState, context: &StateContext)
    ensures
        *final(citizen) == switched(old(citizen).state, to, *old(citizen)),
{
    let from = citizen.state;
    state_exit(from, citizen, context);
    state_enter(to, citizen, context);
    citizen.state = to;
}

/// Run the citizen's regular update; when it asks for another state, leave
/// the current one, enter the new one and record it.
pub fn update_citizen_state(state: &mut CitizenState, citizen: &mut Citizen, context: &StateContext)
    ensures
        ({
            let next = update_next(*old(state), *old(citizen), context.is_daytime);
            exists|mid: Citizen|
                #[trigger] routed(*context.world, *old(citizen), mid, update_goal(*old(state), *old(citizen))) && match next {
                    Some(n) => *final(state) == n && *final(citizen) == switched_from(*old(state), n, mid),
                    None => *final(state) == *old(state) && *final(citizen) == mid,
                }
        }),
{
    let ghost c0 = *citizen;
    let s0 = *state;
    let next = state_update(s0, citizen, context);
    let ghost mid = *citizen;
    if let Some(n) = next {
        state_exit(s0, citizen, context);
        state_enter(n, citizen, context);
        citizen.state = n;
        *state = n;
    }
    assert(routed(*context.world, c0, mid, update_goal(s0, c0)));
}

/// The citizen after leaving `from` and entering `to`, whatever state it recorded.
pub open spec fn switched_from(from: CitizenState, to: CitizenState, c: Citizen) -> Citizen {
    Citizen { state: to, ..enter_effect(to, exit_effect(from, c)) }
}

/// A citizen after nightfall: `mid` is it with its job and log dropped and,
/// when it stood away from home, sent home.
pub open spec fn after_night(w: World, before: Citizen, mid: Citizen, after: Citizen) -> bool {
    &&& routed(w, night_dropped(before), mid, night_goal(before))
    &&& after == switched(before.state, night_next(before), mid)
}

/// A citizen after dawn: `mid` is it sent to its pinned workplace when it
/// has one and stands still.
pub open spec fn after_dawn(w: World, before: Citizen, mid: Citizen, after: Citizen, is_daytime: bool) -> bool {
    &&& routed(w, before, mid, dawn_goal(before, is_daytime))
    &&& after == match dawn_next(before, is_daytime) {
        Some(n) => switched(before.state, n, mid),
        None => mid,
    }
}

/// Every citizen of `after` is the one of `before` after nightfall, the
/// `mids` being the citizens once sent on their way.
pub open spec fn night_outcome(w: World, before: Seq<Citizen>, after: Seq<Citizen>, mids: Seq<Citizen>) -> bool {
    &&& after.len() == before.len()
    &&& mids.len() == before.len()
    &&& forall|j: int| 0 <= j < before.len() ==> #[trigger] after_night(w, before[j], mids[j], after[j])
}

/// Every citizen of `after` is the one of `before` after dawn.
pub open spec fn dawn_outcome(
    w: World,
    before: Seq<Citizen>,
    after: Seq<Citizen>,
    mids: Seq<Citizen>,
    is_daytime: bool,
) -> bool {
    &&& after.len() == before.len()
    &&& mids.len() == before.len()
    &&& forall|j: int| 0 <= j < before.len() ==> #[trigger] after_dawn(w, before[j], mids[j], after[j], is_daytime)
}

/// Nightfall for every citizen (nothing happens during the day): each drops
/// its job and carried log, heads home or falls asleep there.
pub fn handle_night_routine_with_states(
    citizens: &mut Vec<Citizen>,
    world: &World,
    buildings: &Vec<Building>,
    is_daytime: bool,
)
    ensures
        is_daytime ==> final(citizens)@ == old(citizens)@,
        !is_daytime ==> exists|mids: Seq<Citizen>| #[trigger] night_outcome(*world, old(citizens)@, final(citizens)@, mids),
{
    let ghost cs0 = citizens@;
    let context = StateContext { world, buildings, is_daytime };
    if is_daytime {
        return;
    }
    let ghost mut mids: Seq<Citizen> = Seq::empty();
    let mut i: usize = 0;
    while i < citizens.len()
        invariant
            i <= citizens.len(),
            citizens@.len() == cs0.len(),
            context.world == world,
            mids.len() == i,
            forall|j: int| 0 <= j < i ==> #[trigger] after_night(*world, cs0[j], mids[j], citizens@[j]),
            forall|j: int| i <= j < cs0.len() ==> #[trigger] citizens@[j] == cs0[j],
        decreases citizens.len() - i,
    {
        let ghost before = citizens@[i as int];
        let ghost prev = citizens@;
        let from = citizens[i].state;
        let next = match from {
            CitizenState::Idle => IdleState.handle_night(&mut citizens[i], &context),
            CitizenState::GoingToWork => GoingToWorkState.handle_night(&mut citizens[i], &context),
            CitizenState::Working => WorkingState.handle_night(&mut citizens[i], &context),
            CitizenState::GoingToDeposit => GoingToDepositState.handle_night(&mut citizens[i], &context),
            CitizenState::GoingToFetch => GoingToFetchState.handle_night(&mut citizens[i], &context),
            CitizenState::GoingHome => GoingHomeState.handle_night(&mut citizens[i], &context),
            CitizenState::Sleeping => SleepingState.handle_night(&mut citizens[i], &context),
        };
        let ghost mid = citizens@[i as int];
        if let Some(n) = next {
            switch_state(&mut citizens[i], n, &context);
        }
        proof {
            mids = mids.push(mid);
            assert forall|j: int| 0 <= j < i + 1 implies #[trigger] after_night(*world, cs0[j], mids[j], citizens@[j]) by {
                if j < i {
                    assert(citizens@[j] == prev[j]);
                }
            }
        }
        i += 1;
    }
    proof {
        assert(night_outcome(*world, cs0, citizens@, mids));
    }
}

/// Dawn for every citizen: during the day, citizens with a pinned workplace
/// that stand still head there, all others become idle.
pub fn handle_dawn_routine_with_states(
    citizens: &mut Vec<Citizen>,
    world: &World,
    buildings: &Vec<Building>,
    is_daytime: bool,
)
    ensures
        exists|mids: Seq<Citizen>| #[trigger] dawn_outcome(*world, old(citizens)@, final(citizens)@, mids, is_daytime),
{
    let ghost cs0 = citizens@;
    let context = StateContext { world, buildings, is_daytime };
    let ghost mut mids: Seq<Citizen> = Seq::empty();
    let mut i: usize = 0;
    while i < citizens.len()
        invariant
            i <= citizens.len(),
            citizens@.len() == cs0.len(),
            context.world == world,
            context.is_daytime == is_daytime,
            mids.len() == i,
            forall|j: int| 0 <= j < i ==> #[trigger] after_dawn(*world, cs0[j], mids[j], citizens@[j], is_daytime),
            forall|j: int| i <= j < cs0.len() ==> #[trigger] citizens@[j] == cs0[j],
        decreases citizens.len() - i,
    {
        let ghost before = citizens@[i as int];
        let ghost prev = citizens@;
        let from = citizens[i].state;
        let next = match from {
            CitizenState::Idle => IdleState.handle_dawn(&mut citizens[i], &context),
            CitizenState::GoingToWork => GoingToWorkState.handle_dawn(&mut citizens[i], &context),
            CitizenState::Working => WorkingState.handle_dawn(&mut citizens[i], &context),
            CitizenState::GoingToDeposit => GoingToDepositState.handle_dawn(&mut citizens[i], &context),
            CitizenState::GoingToFetch => GoingToFetchState.handle_dawn(&mut citizens[i], &context),
            CitizenState::GoingHome => GoingHomeState.handle_dawn(&mut citizens[i], &context),
            CitizenState::Sleeping => SleepingState.handle_dawn(&mut citizens[i], &context),
        };
        let ghost mid = citizens@[i as int];
        if let Some(n) = next {
            switch_state(&mut citizens[i], n, &context);
        }
        proof {
            mids = mids.push(mid);
            assert forall|j: int| 0 <= j < i + 1 implies #[trigger] after_dawn(
                *world,
                cs0[j],
                mids[j],
                citizens@[j],
                is_daytime,
            ) by {
                if j < i {
                    assert(citizens@[j] == prev[j]);
                }
            }
        }
        i += 1;
    }
    proof {
        assert(dawn_outcome(*world, cs0, citizens@, mids, is_daytime));
    }
}

/// Whether the citizen can take a job in its current state.
pub fn citizen_can_accept_job(citizen: &Citizen) -> (r: bool)
    ensures
        r == accepts_job(citizen.state, *citizen),
{
    match citizen.state {
        CitizenState::Idle => IdleState.can_accept_job(citizen),
        CitizenState::GoingToWork => GoingToWorkState.can_accept_job(citizen),
        CitizenState::Working => WorkingState.can_accept_job(citizen),
        CitizenState::GoingToDeposit => GoingToDepositState.can_accept_job(citizen),
        CitizenState::GoingToFetch => GoingToFetchState.can_accept_job(citizen),
        CitizenState::GoingHome => GoingHomeState.can_accept_job(citizen),
        CitizenState::Sleeping => SleepingState.can_accept_job(citizen),
    }
}

} // verus!
