//! The tick engine: actions scheduled against the ticks of a round, and their
//! application in order.
//!
//! Modules schedule before the first tick is applied. The ticks are then
//! applied one by one, and what was scheduled for a tick is applied in the
//! order in which it was scheduled. Nothing in here reads a clock.

use vstd::prelude::*;
use crate::battle_state::{
    fleet_damaged, fleet_launched, fleet_volley, fleet_wf, lemma_fleet_damaged_wf,
    lemma_fleet_volley_keeps_clock, resolves, same_roster, BattleContext, ROUND_TICKS,
};
use crate::module::proj_weapon::DamageEvent;
use crate::ship::{ShipId, ShipView};

verus! {

/// A point of simulated time within a round.
pub type Tick = u64;

/// Addresses a module: its ship and its slot there.
#[derive(Clone, Copy, Debug, PartialEq, Eq, Structural)]
pub struct ModuleRef {
    /// The ship that the module belongs to.
    pub ship: ShipId,
    /// The slot of the module within the ship.
    pub slot: u32,
}

/// Something that happens to the battle at a tick.
#[derive(Clone, Copy, Debug, PartialEq, Eq, Structural)]
pub enum SimEvent {
    /// A module takes damage.
    Damage(DamageEvent),
}

/// An action together with when it happens and who scheduled it.
#[derive(Clone, Copy, Debug, PartialEq, Eq, Structural)]
pub struct ScheduledEvent {
    /// The tick at which the action is applied.
    pub tick: Tick,
    /// The module that scheduled the action.
    pub source: ModuleRef,
    /// What happens.
    pub event: SimEvent,
}

/// The battle after `event`.
pub open spec fn event_applied(ships: Seq<ShipView>, event: SimEvent) -> Seq<ShipView> {
    match event {
        SimEvent::Damage(hit) => fleet_damaged(ships, hit.ship, hit.module, hit.damage),
    }
}

/// The battle after each of `events`, first to last.
pub open spec fn events_applied(ships: Seq<ShipView>, events: Seq<SimEvent>) -> Seq<ShipView>
    decreases events.len(),
{
    if events.len() == 0 {
        ships
    } else {
        event_applied(events_applied(ships, events.drop_last()), events.last())
    }
}

/// Whatever is applied and in whatever number, the battle stays well-formed
/// and its roster the same: the health of every ship is half the health of its
/// modules, and what an action is aimed at is still there.
pub proof fn lemma_events_keep_wf(ships: Seq<ShipView>, events: Seq<SimEvent>)
    requires
        fleet_wf(ships),
    ensures
        fleet_wf(events_applied(ships, events)),
        same_roster(ships, events_applied(ships, events)),
        forall|i: int|
            0 <= i < ships.len() ==> (#[trigger] events_applied(ships, events)[i]).state.hp
                == events_applied(ships, events)[i].hp_total() / 2,
    decreases events.len(),
{
    if events.len() > 0 {
        let before = events_applied(ships, events.drop_last());
        lemma_events_keep_wf(ships, events.drop_last());
        match events.last() {
            SimEvent::Damage(hit) => {
                lemma_fleet_damaged_wf(before, hit.ship, hit.module, hit.damage);
            },
        }
    }
    let after = events_applied(ships, events);
    assert forall|i: int| 0 <= i < ships.len() implies (#[trigger] after[i]).state.hp
        == after[i].hp_total() / 2 by {
        assert(after[i].wf());
    }
}

/// What is scheduled for `tick`, in the order in which it was scheduled.
pub open spec fn due(schedule: Seq<ScheduledEvent>, tick: Tick) -> Seq<SimEvent>
    decreases schedule.len(),
{
    if schedule.len() == 0 {
        Seq::empty()
    } else if schedule.last().tick == tick {
        due(schedule.drop_last(), tick).push(schedule.last().event)
    } else {
        due(schedule.drop_last(), tick)
    }
}

/// The battle after what `schedule` holds for each of the ticks `from` to
/// `through` has been applied, tick by tick.
pub open spec fn ticks_applied(
    ships: Seq<ShipView>,
    schedule: Seq<ScheduledEvent>,
    from: int,
    through: int,
) -> Seq<ShipView>
    decreases through - from + 1,
{
    if from > through {
        ships
    } else {
        ticks_applied(
            events_applied(ships, due(schedule, from as Tick)),
            schedule,
            from + 1,
            through,
        )
    }
}

/// Applying ticks in two runs gives what applying them in one run gives.
pub proof fn lemma_ticks_in_two_runs(
    ships: Seq<ShipView>,
    schedule: Seq<ScheduledEvent>,
    from: int,
    until: int,
    through: int,
)
    requires
        from <= until + 1 <= through + 1,
    ensures
        ticks_applied(ticks_applied(ships, schedule, from, until), schedule, until + 1, through)
            == ticks_applied(ships, schedule, from, through),
    decreases until - from + 1,
{
    if from <= until {
        lemma_ticks_in_two_runs(
            events_applied(ships, due(schedule, from as Tick)),
            schedule,
            from + 1,
            until,
            through,
        );
    }
}

/// The battle after the simulation phase of a round: every module is set up
/// and has scheduled what the committed plans make it do, and every tick of
/// the round has been applied.
pub open spec fn round_simulated(ships: Seq<ShipView>) -> Seq<ShipView> {
    ticks_applied(
        fleet_launched(ships),
        fleet_volley(ships, SimEventsView { schedule: Seq::empty(), last_applied: None }).schedule,
        0,
        ROUND_TICKS - 1,
    )
}

/// The schedule of a round as a value.
pub struct SimEventsView {
    /// Everything that was scheduled, in the order in which it was scheduled.
    pub schedule: Seq<ScheduledEvent>,
    /// The latest tick that has been applied, if any has.
    pub last_applied: Option<Tick>,
}

impl SimEventsView {
    /// Whether `tick` lies in the future: no tick has been applied yet, or
    /// only earlier ones.
    pub open spec fn is_open(self, tick: Tick) -> bool {
        match self.last_applied {
            None => true,
            Some(last) => last < tick,
        }
    }

    /// The schedule after `source` has asked for `event` at `tick`: the event
    /// is added behind what was scheduled before if the tick lies in the
    /// future, and refused otherwise.
    pub open spec fn scheduled(self, tick: Tick, source: ModuleRef, event: SimEvent) -> SimEventsView {
        if self.is_open(tick) {
            SimEventsView {
                schedule: self.schedule.push(ScheduledEvent { tick, source, event }),
                ..self
            }
        } else {
            self
        }
    }

    /// The schedule after `source` has scheduled `impact`, if that is anything.
    pub open spec fn with_impact(self, source: ModuleRef, impact: Option<(Tick, SimEvent)>) -> SimEventsView {
        match impact {
            None => self,
            Some((tick, event)) => self.scheduled(tick, source, event),
        }
    }

    /// The first tick that lies in the future.
    pub open spec fn next_tick(self) -> int {
        match self.last_applied {
            None => 0,
            Some(last) => last + 1,
        }
    }

    /// The schedule after `tick` has been applied.
    pub open spec fn closed(self, tick: Tick) -> SimEventsView {
        SimEventsView { last_applied: Some(tick), ..self }
    }
}

impl SimEvent {
    /// Applies the event to the battle and tells whether the battle has what
    /// the event is aimed at.
    pub fn apply(&self, context: &mut BattleContext) -> (applied: bool)
        requires
            fleet_wf(old(context)@),
        ensures
            final(context)@ == event_applied(old(context)@, *self),
            fleet_wf(final(context)@),
            same_roster(old(context)@, final(context)@),
            applied == match *self {
                SimEvent::Damage(hit) => resolves(old(context)@, hit.ship, hit.module),
            },
    {
        match self {
            SimEvent::Damage(hit) => hit.apply(context),
        }
    }
}

/// The schedule of a round.
pub struct SimEvents {
    schedule: Vec<ScheduledEvent>,
    last_applied: Option<Tick>,
}

impl View for SimEvents {
    type V = SimEventsView;

    closed spec fn view(&self) -> SimEventsView {
        SimEventsView { schedule: self.schedule@, last_applied: self.last_applied }
    }
}

/// Schedules on behalf of one module.
pub struct SimEventAdder<'a> {
    /// The schedule that is added to.
    pub events: &'a mut SimEvents,
    /// The module that schedules.
    pub module: ModuleRef,
}

impl<'a> SimEventAdder<'a> {
    /// Schedules `event` for `tick` and tells whether it was accepted: it is
    /// unless the tick has been applied or passed.
    pub fn add(&mut self, tick: Tick, event: SimEvent) -> (accepted: bool)
        ensures
            accepted == old(self).events@.is_open(tick),
            final(self).events@ == old(self).events@.scheduled(tick, old(self).module, event),
            final(self).module == old(self).module,
            *final(final(self).events) == *final(old(self).events),
    {
        let open = match self.events.last_applied {
            None => true,
            Some(last) => last < tick,
        };
        if open {
            self.events.schedule.push(ScheduledEvent { tick, source: self.module, event });
        }
        open
    }
}

impl SimEvents {
    /// A schedule that holds nothing, with every tick still to come.
    pub fn new() -> (events: SimEvents)
        ensures
            events@ == (SimEventsView { schedule: Seq::empty(), last_applied: None }),
    {
        SimEvents { schedule: Vec::new(), last_applied: None }
    }

    /// A handle that schedules on behalf of `module`.
    pub fn create_adder(&mut self, module: ModuleRef) -> (adder: SimEventAdder<'_>)
        ensures
            adder.module == module,
            adder.events@ == old(self)@,
            *final(self) == *final(adder.events),
    {
        SimEventAdder { events: self, module }
    }

    /// The number of actions that have been scheduled.
    pub fn len(&self) -> (n: usize)
        ensures
            n == self@.schedule.len(),
    {
        self.schedule.len()
    }

    /// The `i`-th action in the order of scheduling.
    pub fn get(&self, i: usize) -> (scheduled: ScheduledEvent)
        requires
            i < self@.schedule.len(),
        ensures
            scheduled == self@.schedule[i as int],
    {
        self.schedule[i]
    }

    /// The latest tick that has been applied, if any has.
    pub fn last_applied(&self) -> (tick: Option<Tick>)
        ensures
            tick == self@.last_applied,
    {
        self.last_applied
    }

    /// Applies what is scheduled for `tick`, in the order in which it was
    /// scheduled, and tells whether it did. A tick that has been applied or
    /// passed is not applied again.
    pub fn apply_tick(&mut self, context: &mut BattleContext, tick: Tick) -> (applied: bool)
        requires
            fleet_wf(old(context)@),
        ensures
            applied == old(self)@.is_open(tick),
            final(self)@ == if applied {
                old(self)@.closed(tick)
            } else {
                old(self)@
            },
            final(context)@ == if applied {
                events_applied(old(context)@, due(old(self)@.schedule, tick))
            } else {
                old(context)@
            },
            fleet_wf(final(context)@),
            same_roster(old(context)@, final(context)@),
    {
        let open = match self.last_applied {
            None => true,
            Some(last) => last < tick,
        };
        if !open {
            return false;
        }
        let n = self.schedule.len();
        let mut i: usize = 0;
        while i < n
            invariant
                i <= n,
                n == self.schedule.len(),
                *self == *old(self),
                fleet_wf(context@),
                same_roster(old(context)@, context@),
                context@ == events_applied(old(context)@, due(self.schedule@.take(i as int), tick)),
            decreases n - i,
        {
            proof {
                assert(self.schedule@.take(i + 1).drop_last() =~= self.schedule@.take(i as int));
            }
            let scheduled = self.schedule[i];
            if scheduled.tick == tick {
                let ghost events = due(self.schedule@.take(i + 1), tick);
                assert(events.drop_last() =~= due(self.schedule@.take(i as int), tick));
                scheduled.event.apply(context);
            }
            i = i + 1;
        }
        proof {
            assert(self.schedule@.take(n as int) =~= self.schedule@);
        }
        self.last_applied = Some(tick);
        true
    }

    /// Applies every tick that lies in the future up to and including `tick`,
    /// in order. Ticks that have been applied or passed are not applied again.
    pub fn apply_through(&mut self, context: &mut BattleContext, tick: Tick)
        requires
            fleet_wf(old(context)@),
        ensures
            final(context)@ == ticks_applied(
                old(context)@,
                old(self)@.schedule,
                old(self)@.next_tick(),
                tick as int,
            ),
            final(self)@ == if old(self)@.is_open(tick) {
                old(self)@.closed(tick)
            } else {
                old(self)@
            },
            fleet_wf(final(context)@),
            same_roster(old(context)@, final(context)@),
    {
        let first: Tick = match self.last_applied {
            None => 0,
            Some(last) => {
                if last >= tick {
                    return ;
                }
                last + 1
            },
        };
        let ghost goal = ticks_applied(context@, self@.schedule, first as int, tick as int);
        let mut t: Tick = first;
        while t < tick
            invariant
                first <= t <= tick,
                self@.schedule == old(self)@.schedule,
                self@.is_open(t),
                fleet_wf(context@),
                same_roster(old(context)@, context@),
                ticks_applied(context@, self@.schedule, t as int, tick as int) == goal,
            decreases tick - t,
        {
            self.apply_tick(context, t);
            t = t + 1;
        }
        self.apply_tick(context, tick);
        assert(ticks_applied(context@, self@.schedule, tick + 1, tick as int) == context@);
    }
}

/// Runs the simulation phase of a round from its start to its end: sets every
/// module up, lets each schedule what the committed plans make it do, applies
/// every tick of the round in order, and tells every module that it is over.
pub fn simulate_round(context: &mut BattleContext)
    requires
        fleet_wf(old(context)@),
    ensures
        final(context)@ == round_simulated(old(context)@),
        fleet_wf(final(context)@),
        same_roster(old(context)@, final(context)@),
{
    let mut events = SimEvents::new();
    proof {
        lemma_fleet_volley_keeps_clock(context@, events@);
    }
    context.before_simulation(&mut events);
    events.apply_through(context, ROUND_TICKS - 1);
    context.after_simulation();
}

} // verus!
