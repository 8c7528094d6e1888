//! The battle: every ship that takes part, and who controls which.

use vstd::prelude::*;
use crate::module::proj_weapon::target_vetted;
use crate::module::{lemma_total_update, Module, ModulePlan, Tally};
use crate::net::{ClientId, InPacket, OutPacket, ProtocolError};
use crate::ship::plans::{lemma_plans_parsed_len, lemma_plans_reproduced};
use crate::ship::{
    lemma_damage_keeps_wf, lemma_volley_keeps_clock, volley, Ship, ShipId, ShipView,
};
use crate::sim::{ScheduledEvent, SimEvent, SimEvents, SimEventsView};

verus! {

/// Ticks of simulated time in a second of the presentation.
pub const TICKS_PER_SECOND: u64 = 20;

/// Milliseconds of the presentation that a tick lasts.
pub const MILLIS_PER_TICK: u64 = 50;

/// Seconds that the planning phase of a round lasts.
pub const PLANNING_SECONDS: u64 = 5;

/// Seconds that the simulation phase of a round lasts.
pub const SIMULATION_SECONDS: u64 = 5;

/// Ticks in the simulation phase of a round: the ticks from 0 up to this one
/// are applied.
pub const ROUND_TICKS: u64 = 100;

/// The tick that is current when `elapsed_ms` milliseconds of the simulation
/// phase have passed.
pub open spec fn spec_tick_at(elapsed_ms: u64) -> u64 {
    elapsed_ms / MILLIS_PER_TICK
}

/// The tick that is current when `elapsed_ms` milliseconds of the simulation
/// phase have passed.
#[verifier::when_used_as_spec(spec_tick_at)]
pub fn tick_at(elapsed_ms: u64) -> (tick: u64)
    ensures
        tick == spec_tick_at(elapsed_ms),
        tick * MILLIS_PER_TICK <= elapsed_ms < (tick + 1) * MILLIS_PER_TICK,
{
    elapsed_ms / MILLIS_PER_TICK
}

/// The millisecond of the simulation phase at which `tick` begins, which is
/// `tick / TICKS_PER_SECOND` seconds into it.
pub fn millis_at(tick: u64) -> (elapsed_ms: u64)
    requires
        tick * MILLIS_PER_TICK <= u64::MAX,
    ensures
        elapsed_ms == tick * MILLIS_PER_TICK,
        elapsed_ms * TICKS_PER_SECOND == tick * 1000,
        spec_tick_at(elapsed_ms) == tick,
{
    tick * MILLIS_PER_TICK
}

/// What a ship is looked up by.
#[derive(Clone, Copy, Debug, PartialEq, Eq, Structural)]
pub enum ShipKey {
    /// The ship's identifier.
    Id(ShipId),
    /// The participant who controls the ship.
    Client(ClientId),
}

/// Whether `ship` is the one that `key` asks for.
pub open spec fn answers(ship: ShipView, key: ShipKey) -> bool {
    match key {
        ShipKey::Id(id) => ship.id == id,
        ShipKey::Client(client) => ship.client_id == Some(client),
    }
}

/// The position of the first ship that `key` asks for, if there is one.
pub open spec fn position_of(ships: Seq<ShipView>, key: ShipKey) -> Option<int>
    decreases ships.len(),
{
    if ships.len() == 0 {
        None
    } else {
        match position_of(ships.drop_last(), key) {
            Some(i) => Some(i),
            None => if answers(ships.last(), key) {
                Some(ships.len() - 1)
            } else {
                None
            },
        }
    }
}

/// `position_of` gives the first ship that answers, and none only if none
/// answers.
pub proof fn lemma_position_of(ships: Seq<ShipView>, key: ShipKey)
    ensures
        match position_of(ships, key) {
            Some(i) => {
                &&& 0 <= i < ships.len()
                &&& answers(ships[i], key)
                &&& forall|j: int| 0 <= j < i ==> !answers(#[trigger] ships[j], key)
            },
            None => forall|j: int| 0 <= j < ships.len() ==> !answers(#[trigger] ships[j], key),
        },
    decreases ships.len(),
{
    if ships.len() > 0 {
        let front = ships.drop_last();
        lemma_position_of(front, key);
        assert forall|j: int| 0 <= j < front.len() implies front[j] == ships[j] by {}
        match position_of(front, key) {
            Some(i) => {
                assert(front[i] == ships[i]);
                assert forall|j: int| 0 <= j < i implies !answers(#[trigger] ships[j], key) by {
                    assert(front[j] == ships[j]);
                }
            },
            None => {
                assert forall|j: int| 0 <= j < ships.len() - 1 implies !answers(
                    #[trigger] ships[j],
                    key,
                ) by {
                    assert(front[j] == ships[j]);
                }
            },
        }
    }
}

/// A position is the one `position_of` gives if the ship there answers and
/// none before it does.
pub proof fn lemma_position_is(ships: Seq<ShipView>, key: ShipKey, i: int)
    requires
        0 <= i < ships.len(),
        answers(ships[i], key),
        forall|j: int| 0 <= j < i ==> !answers(#[trigger] ships[j], key),
    ensures
        position_of(ships, key) == Some(i),
{
    lemma_position_of(ships, key);
}

/// Ships that keep their identifiers and participants are found where they
/// were.
pub proof fn lemma_position_kept(before: Seq<ShipView>, after: Seq<ShipView>, key: ShipKey)
    requires
        before.len() == after.len(),
        forall|i: int|
            0 <= i < before.len() ==> (#[trigger] before[i]).id == after[i].id
                && before[i].client_id == after[i].client_id,
    ensures
        position_of(before, key) == position_of(after, key),
{
    lemma_position_of(before, key);
    lemma_position_of(after, key);
    match position_of(before, key) {
        Some(i) => {
            assert(answers(after[i], key));
            assert forall|j: int| 0 <= j < i implies !answers(#[trigger] after[j], key) by {
                assert(!answers(before[j], key));
            }
        },
        None => {
            assert forall|j: int| 0 <= j < after.len() implies !answers(#[trigger] after[j], key) by {
                assert(!answers(before[j], key));
            }
        },
    }
}

/// The invariant of a battle: every ship is well-formed, no two ships share an
/// identifier, and no participant controls two ships.
pub open spec fn fleet_wf(ships: Seq<ShipView>) -> bool {
    &&& forall|i: int| 0 <= i < ships.len() ==> (#[trigger] ships[i]).wf()
    &&& forall|i: int, j: int|
        0 <= i < j < ships.len() ==> (#[trigger] ships[i]).id != (#[trigger] ships[j]).id
    &&& forall|i: int, j: int|
        0 <= i < j < ships.len() && (#[trigger] ships[i]).client_id is Some ==> ships[i].client_id
            != (#[trigger] ships[j]).client_id
}

/// Whether two states of a battle have the same ships in the same order, each
/// with the same participant and as many modules.
pub open spec fn same_roster(before: Seq<ShipView>, after: Seq<ShipView>) -> bool {
    &&& before.len() == after.len()
    &&& forall|i: int|
        0 <= i < before.len() ==> {
            &&& (#[trigger] before[i]).id == after[i].id
            &&& before[i].client_id == after[i].client_id
            &&& before[i].modules.len() == after[i].modules.len()
        }
}

/// What a scheduled action is aimed at stays there: a module that the battle
/// has, it still has while the roster is the same.
pub proof fn lemma_resolves_kept(
    before: Seq<ShipView>,
    after: Seq<ShipView>,
    ship: ShipId,
    slot: u32,
)
    requires
        same_roster(before, after),
    ensures
        resolves(before, ship, slot) == resolves(after, ship, slot),
{
    lemma_position_kept(before, after, ShipKey::Id(ship));
    lemma_position_of(before, ShipKey::Id(ship));
}

/// Whether the battle has a ship `ship` with a module in `slot`.
pub open spec fn resolves(ships: Seq<ShipView>, ship: ShipId, slot: u32) -> bool {
    match position_of(ships, ShipKey::Id(ship)) {
        Some(i) => slot < ships[i].modules.len(),
        None => false,
    }
}

/// The battle after a hit of `damage` on the module in `slot` of `ship`. A hit
/// on what the battle does not have changes nothing.
pub open spec fn fleet_damaged(ships: Seq<ShipView>, ship: ShipId, slot: u32, damage: u8) -> Seq<
    ShipView,
> {
    match position_of(ships, ShipKey::Id(ship)) {
        Some(i) => if slot < ships[i].modules.len() {
            ships.update(i, ships[i].damaged(slot as int, damage))
        } else {
            ships
        },
        None => ships,
    }
}

/// Ships that only change in the state and the modules of each keep the
/// identities that the invariant of a battle speaks of.
pub proof fn lemma_fleet_wf_kept(before: Seq<ShipView>, after: Seq<ShipView>)
    requires
        fleet_wf(before),
        before.len() == after.len(),
        forall|i: int|
            0 <= i < before.len() ==> (#[trigger] after[i]).wf() && before[i].id == after[i].id
                && before[i].client_id == after[i].client_id,
    ensures
        fleet_wf(after),
{
    assert forall|i: int, j: int| 0 <= i < j < after.len() implies (#[trigger] after[i]).id != (
    #[trigger] after[j]).id by {
        assert(before[i].id != before[j].id);
    }
    assert forall|i: int, j: int|
        0 <= i < j < after.len() && (#[trigger] after[i]).client_id is Some implies after[i].client_id
        != (#[trigger] after[j]).client_id by {
        assert(before[i].client_id != before[j].client_id);
    }
}

/// A hit leaves a well-formed battle well-formed and its roster the same.
pub proof fn lemma_fleet_damaged_wf(ships: Seq<ShipView>, ship: ShipId, slot: u32, damage: u8)
    requires
        fleet_wf(ships),
    ensures
        fleet_wf(fleet_damaged(ships, ship, slot, damage)),
        same_roster(ships, fleet_damaged(ships, ship, slot, damage)),
{
    lemma_position_of(ships, ShipKey::Id(ship));
    if let Some(i) = position_of(ships, ShipKey::Id(ship)) {
        if slot < ships[i].modules.len() {
            assert(ships[i].wf());
            lemma_damage_keeps_wf(ships[i], slot as int, damage);
            lemma_fleet_wf_kept(ships, fleet_damaged(ships, ship, slot, damage));
        }
    }
}

/// The battle with the bookkeeping of every module reset for the round.
pub open spec fn fleet_preprocessed(ships: Seq<ShipView>) -> Seq<ShipView> {
    Seq::new(ships.len(), |i: int| ships[i].preprocessed())
}

/// The battle with every module set up for the simulation of the round.
pub open spec fn fleet_launched(ships: Seq<ShipView>) -> Seq<ShipView> {
    Seq::new(ships.len(), |i: int| ships[i].launched())
}

/// The schedule after every module of every ship has scheduled what it does
/// in the round: ship by ship, and within a ship in slot order.
pub open spec fn fleet_volley(ships: Seq<ShipView>, events: SimEventsView) -> SimEventsView
    decreases ships.len(),
{
    if ships.len() == 0 {
        events
    } else {
        volley(ships.last().modules, ships.last().id, fleet_volley(ships.drop_last(), events))
    }
}

/// Whether the battle has what every one of `ships` aims its weapons at.
pub open spec fn aims_resolve(all: Seq<ShipView>, ships: Seq<ShipView>) -> bool {
    forall|i: int, j: int|
        0 <= i < ships.len() && 0 <= j < ships[i].modules.len() ==> target_vetted(
            all,
            (#[trigger] ships[i].modules[j]).plan().target,
        ) is Ok
}

/// Whether the battle has what every scheduled action is aimed at.
pub open spec fn schedule_resolves(all: Seq<ShipView>, schedule: Seq<ScheduledEvent>) -> bool {
    forall|k: int|
        0 <= k < schedule.len() ==> match (#[trigger] schedule[k]).event {
            SimEvent::Damage(hit) => resolves(all, hit.ship, hit.module),
        }
}

/// What ships schedule whose aims the battle has is aimed at what the battle
/// has.
pub proof fn lemma_fleet_volley_resolves(
    all: Seq<ShipView>,
    ships: Seq<ShipView>,
    events: SimEventsView,
)
    requires
        aims_resolve(all, ships),
        schedule_resolves(all, events.schedule),
    ensures
        schedule_resolves(all, fleet_volley(ships, events).schedule),
    decreases ships.len(),
{
    if ships.len() > 0 {
        let front = ships.drop_last();
        assert forall|i: int, j: int|
            0 <= i < front.len() && 0 <= j < front[i].modules.len() implies target_vetted(
            all,
            (#[trigger] front[i].modules[j]).plan().target,
        ) is Ok by {
            assert(front[i] == ships[i]);
            assert(target_vetted(all, ships[i].modules[j].plan().target) is Ok);
        }
        lemma_fleet_volley_resolves(all, front, events);
        let last = ships.last();
        assert forall|j: int| 0 <= j < last.modules.len() implies target_vetted(
            all,
            (#[trigger] last.modules[j]).plan().target,
        ) is Ok by {
            assert(last == ships[ships.len() - 1]);
            assert(target_vetted(all, ships[ships.len() - 1].modules[j].plan().target) is Ok);
        }
        lemma_volley_resolves(all, last.modules, last.id, fleet_volley(front, events));
    }
}

/// What modules schedule whose aims the battle has is aimed at what the
/// battle has.
pub proof fn lemma_volley_resolves(
    all: Seq<ShipView>,
    modules: Seq<Module>,
    ship: ShipId,
    events: SimEventsView,
)
    requires
        forall|j: int|
            0 <= j < modules.len() ==> target_vetted(all, (#[trigger] modules[j]).plan().target)
                is Ok,
        schedule_resolves(all, events.schedule),
    ensures
        schedule_resolves(all, volley(modules, ship, events).schedule),
    decreases modules.len(),
{
    if modules.len() > 0 {
        let front = modules.drop_last();
        assert forall|j: int| 0 <= j < front.len() implies target_vetted(
            all,
            (#[trigger] front[j]).plan().target,
        ) is Ok by {
            assert(front[j] == modules[j]);
        }
        lemma_volley_resolves(all, front, ship, events);
        assert(modules.last() == modules[modules.len() - 1]);
        assert(target_vetted(all, modules[modules.len() - 1].plan().target) is Ok);
    }
}

/// Scheduling moves no clock: the ticks that have been applied stay applied.
pub proof fn lemma_fleet_volley_keeps_clock(ships: Seq<ShipView>, events: SimEventsView)
    ensures
        fleet_volley(ships, events).last_applied == events.last_applied,
    decreases ships.len(),
{
    if ships.len() > 0 {
        lemma_fleet_volley_keeps_clock(ships.drop_last(), events);
        lemma_volley_keeps_clock(
            ships.last().modules,
            ships.last().id,
            fleet_volley(ships.drop_last(), events),
        );
    }
}

/// The encoding of the committed plans of every ship, ship by ship.
pub open spec fn fleet_plan_bytes(ships: Seq<ShipView>) -> Seq<u8>
    decreases ships.len(),
{
    if ships.len() == 0 {
        Seq::empty()
    } else {
        ships[0].plan_bytes() + fleet_plan_bytes(ships.skip(1))
    }
}

/// The ships `ships` of the battle `all` after each has read its plans from
/// the front of `bytes` and taken them over, and the bytes that follow; or why
/// the first ship that cannot do so cannot.
pub open spec fn fleet_plans_read(all: Seq<ShipView>, ships: Seq<ShipView>, bytes: Seq<u8>) -> Result<
    (Seq<ShipView>, Seq<u8>),
    ProtocolError,
>
    decreases ships.len(),
{
    if ships.len() == 0 {
        Ok((Seq::empty(), bytes))
    } else {
        match ships[0].plans_read(all, bytes) {
            Err(e) => Err(e),
            Ok((ship, rest)) => match fleet_plans_read(all, ships.skip(1), rest) {
                Err(e) => Err(e),
                Ok((ships, rest)) => Ok((seq![ship] + ships, rest)),
            },
        }
    }
}

/// What one battle writes, a battle with as many ships of as many modules
/// reads: every ship of the receiving battle then runs the modules that its
/// counterpart runs and aims where its counterpart aims, and what followed the
/// plans in the message is left; unless one of its ships refuses the plans of
/// its counterpart, which is the only way for the reading to fail.
pub proof fn lemma_fleet_plans_reproduced(
    all: Seq<ShipView>,
    senders: Seq<ShipView>,
    receivers: Seq<ShipView>,
    rest: Seq<u8>,
)
    requires
        senders.len() == receivers.len(),
        forall|i: int|
            0 <= i < senders.len() ==> (#[trigger] senders[i]).modules.len()
                == receivers[i].modules.len(),
    ensures
        match fleet_plans_read(all, receivers, fleet_plan_bytes(senders) + rest) {
            Ok((taken, left)) => {
                &&& left == rest
                &&& taken.len() == senders.len()
                &&& forall|i: int|
                    0 <= i < taken.len() ==> (#[trigger] taken[i]).plans() == senders[i].plans()
            },
            Err(e) => exists|i: int|
                0 <= i < senders.len() && (#[trigger] receivers[i]).with_plans(
                    all,
                    senders[i].plans(),
                ) == Err::<ShipView, ProtocolError>(e),
        },
    decreases senders.len(),
{
    if senders.len() > 0 {
        let tail = fleet_plan_bytes(senders.skip(1)) + rest;
        assert(fleet_plan_bytes(senders) + rest =~= senders[0].plan_bytes() + tail);
        lemma_plans_reproduced(senders[0], receivers[0], all, tail);
        match receivers[0].with_plans(all, senders[0].plans()) {
            Err(_) => {},
            Ok(first) => {
                let (later_senders, later_receivers) = (senders.skip(1), receivers.skip(1));
                assert forall|i: int| 0 <= i < later_senders.len() implies (
                #[trigger] later_senders[i]).modules.len() == later_receivers[i].modules.len() by {
                    assert(later_senders[i] == senders[i + 1]);
                    assert(later_receivers[i] == receivers[i + 1]);
                }
                lemma_fleet_plans_reproduced(all, later_senders, later_receivers, rest);
                match fleet_plans_read(all, later_receivers, tail) {
                    Ok((later, _)) => {
                        let taken = seq![first] + later;
                        assert forall|i: int| 0 <= i < taken.len() implies (
                        #[trigger] taken[i]).plans() == senders[i].plans() by {
                            if i > 0 {
                                assert(taken[i] == later[i - 1]);
                                assert(senders[i] == later_senders[i - 1]);
                            }
                        }
                    },
                    Err(e) => {
                        let i = choose|i: int|
                            0 <= i < later_senders.len() && (
                            #[trigger] later_receivers[i]).with_plans(
                                all,
                                later_senders[i].plans(),
                            ) == Err::<ShipView, ProtocolError>(e);
                        assert(later_receivers[i] == receivers[i + 1]);
                        assert(later_senders[i] == senders[i + 1]);
                    },
                }
            },
        }
    } else {
        assert(fleet_plan_bytes(senders) + rest =~= rest);
    }
}

/// Everything that takes part in a battle.
#[derive(Clone, Debug, PartialEq, Eq)]
pub struct BattleContext {
    /// The ships, in the order in which they joined.
    pub ships: Vec<Ship>,
}

impl View for BattleContext {
    type V = Seq<ShipView>;

    open spec fn view(&self) -> Seq<ShipView> {
        Seq::new(self.ships@.len(), |i: int| self.ships@[i]@)
    }
}

impl BattleContext {
    /// A battle without ships.
    pub fn new() -> (context: BattleContext)
        ensures
            context@ == Seq::<ShipView>::empty(),
            fleet_wf(context@),
    {
        let context = BattleContext { ships: Vec::new() };
        assert(context@ =~= Seq::<ShipView>::empty());
        context
    }

    /// Whether the battle is well-formed.
    pub fn is_valid(&self) -> (valid: bool)
        ensures
            valid == fleet_wf(self@),
    {
        let n = self.ships.len();
        let mut i: usize = 0;
        while i < n
            invariant
                i <= n,
                n == self.ships.len(),
                forall|k: int| 0 <= k < i ==> (#[trigger] self@[k]).wf(),
                forall|k: int, j: int|
                    0 <= k < j < i ==> (#[trigger] self@[k]).id != (#[trigger] self@[j]).id,
                forall|k: int, j: int|
                    0 <= k < j < i && (#[trigger] self@[k]).client_id is Some ==> self@[k].client_id
                        != (#[trigger] self@[j]).client_id,
            decreases n - i,
        {
            let ship = &self.ships[i];
            assert(ship@ == self@[i as int]);
            if !ship.is_valid() {
                return false;
            }
            let mut k: usize = 0;
            while k < i
                invariant
                    k <= i,
                    i < n,
                    n == self.ships.len(),
                    ship@ == self@[i as int],
                    forall|h: int| 0 <= h < k ==> (#[trigger] self@[h]).id != ship@.id,
                    forall|h: int|
                        0 <= h < k && (#[trigger] self@[h]).client_id is Some ==> self@[h].client_id
                            != ship@.client_id,
                decreases i - k,
            {
                let earlier = &self.ships[k];
                assert(earlier@ == self@[k as int]);
                if earlier.id == ship.id {
                    return false;
                }
                let shared = match (earlier.client_id, ship.client_id) {
                    (Some(a), Some(b)) => a == b,
                    _ => false,
                };
                if shared {
                    return false;
                }
                k = k + 1;
            }
            i = i + 1;
        }
        true
    }

    /// The position of the first ship that `key` asks for, if there is one.
    pub fn find_ship(&self, key: ShipKey) -> (found: Option<usize>)
        ensures
            match found {
                Some(i) => position_of(self@, key) == Some(i as int) && i < self.ships.len(),
                None => position_of(self@, key) is None,
            },
    {
        let mut i: usize = 0;
        while i < self.ships.len()
            invariant
                i <= self.ships.len(),
                forall|j: int| 0 <= j < i ==> !answers(#[trigger] self@[j], key),
            decreases self.ships.len() - i,
        {
            let ship = &self.ships[i];
            let hit = match key {
                ShipKey::Id(id) => ship.id == id,
                ShipKey::Client(client) => match ship.client_id {
                    Some(owner) => owner == client,
                    None => false,
                },
            };
            assert(hit == answers(self@[i as int], key));
            if hit {
                proof {
                    lemma_position_is(self@, key, i as int);
                }
                return Some(i);
            }
            i = i + 1;
        }
        proof {
            lemma_position_of(self@, key);
        }
        None
    }

    /// The ship with the identifier `id`, if the battle has it.
    pub fn get_ship(&self, id: ShipId) -> (found: Option<&Ship>)
        ensures
            match found {
                Some(ship) => match position_of(self@, ShipKey::Id(id)) {
                    Some(i) => ship@ == self@[i],
                    None => false,
                },
                None => position_of(self@, ShipKey::Id(id)) is None,
            },
    {
        match self.find_ship(ShipKey::Id(id)) {
            Some(i) => Some(&self.ships[i]),
            None => None,
        }
    }

    /// The ship that the participant `client` controls, if there is one.
    pub fn get_ship_by_client_id(&self, client: ClientId) -> (found: Option<&Ship>)
        ensures
            match found {
                Some(ship) => match position_of(self@, ShipKey::Client(client)) {
                    Some(i) => ship@ == self@[i],
                    None => false,
                },
                None => position_of(self@, ShipKey::Client(client)) is None,
            },
    {
        match self.find_ship(ShipKey::Client(client)) {
            Some(i) => Some(&self.ships[i]),
            None => None,
        }
    }

    /// Whether the battle can take `ship`: its identifier is not in use, nor is
    /// its participant.
    pub open spec fn admits(ships: Seq<ShipView>, ship: ShipView) -> bool {
        &&& position_of(ships, ShipKey::Id(ship.id)) is None
        &&& match ship.client_id {
            Some(client) => position_of(ships, ShipKey::Client(client)) is None,
            None => true,
        }
    }

    /// Adds `ship` to the battle and tells whether it did. A battle that
    /// cannot take the ship is left as it was.
    pub fn add_ship(&mut self, ship: Ship) -> (added: bool)
        requires
            fleet_wf(old(self)@),
            ship@.wf(),
        ensures
            added == Self::admits(old(self)@, ship@),
            final(self)@ == if added {
                old(self)@.push(ship@)
            } else {
                old(self)@
            },
            fleet_wf(final(self)@),
    {
        if self.find_ship(ShipKey::Id(ship.id)).is_some() {
            return false;
        }
        match ship.client_id {
            Some(client) => {
                if self.find_ship(ShipKey::Client(client)).is_some() {
                    return false;
                }
            },
            None => {},
        }
        proof {
            lemma_position_of(self@, ShipKey::Id(ship.id));
            if let Some(client) = ship.client_id {
                lemma_position_of(self@, ShipKey::Client(client));
            }
        }
        let ghost joined = ship@;
        self.ships.push(ship);
        proof {
            assert(self@ =~= old(self)@.push(joined));
            assert forall|i: int, j: int| 0 <= i < j < self@.len() implies (#[trigger] self@[i]).id
                != (#[trigger] self@[j]).id by {
                if j == self@.len() - 1 {
                    assert(!answers(old(self)@[i], ShipKey::Id(joined.id)));
                }
            }
            assert forall|i: int, j: int|
                0 <= i < j < self@.len() && (#[trigger] self@[i]).client_id is Some implies self@[i].client_id
                != (#[trigger] self@[j]).client_id by {
                if j == self@.len() - 1 {
                    if let Some(client) = joined.client_id {
                        assert(!answers(old(self)@[i], ShipKey::Client(client)));
                    }
                }
            }
        }
        true
    }

    /// Deals `damage` to the module in `slot` of `ship` and tells whether the
    /// battle has that module.
    pub fn damage_module(&mut self, ship: ShipId, slot: u32, damage: u8) -> (dealt: bool)
        requires
            fleet_wf(old(self)@),
        ensures
            dealt == resolves(old(self)@, ship, slot),
            final(self)@ == fleet_damaged(old(self)@, ship, slot, damage),
            fleet_wf(final(self)@),
            same_roster(old(self)@, final(self)@),
    {
        match self.find_ship(ShipKey::Id(ship)) {
            None => false,
            Some(i) => {
                if slot as usize >= self.ships[i].modules.len() {
                    return false;
                }
                assert(self@[i as int].wf());
                self.ships[i].damage_module(slot, damage);
                proof {
                    assert(self@ =~= old(self)@.update(
                        i as int,
                        old(self)@[i as int].damaged(slot as int, damage),
                    ));
                }
                true
            },
        }
    }

    /// Plans the module in `slot` of the ship at `position` to run or not to
    /// run, and tells whether it did. A battle that cannot take the plan is
    /// left as it was.
    pub fn plan_module(&mut self, position: usize, slot: u32, powered: bool) -> (planned: bool)
        requires
            fleet_wf(old(self)@),
        ensures
            planned == (position < old(self)@.len() && old(self)@[position as int].can_plan(
                slot as int,
                powered,
            )),
            final(self)@ == if planned {
                old(self)@.update(
                    position as int,
                    old(self)@[position as int].with_plan(slot as int, powered),
                )
            } else {
                old(self)@
            },
            fleet_wf(final(self)@),
            same_roster(old(self)@, final(self)@),
    {
        if position >= self.ships.len() {
            return false;
        }
        assert(self@[position as int].wf());
        let planned = self.ships[position].plan_module(slot, powered);
        proof {
            assert(self@ =~= old(self)@.update(position as int, self@[position as int]));
            lemma_fleet_wf_kept(old(self)@, self@);
        }
        planned
    }

    /// Aims the module in `slot` of the ship at `position` at `target`, and
    /// tells whether it did: it does if the battle has the ship, the slot and
    /// the target. A battle that cannot take the aim is left as it was.
    pub fn aim_module(&mut self, position: usize, slot: u32, target: Option<(ShipId, u32)>) -> (aimed:
        bool)
        requires
            fleet_wf(old(self)@),
        ensures
            aimed == (position < old(self)@.len() && slot < old(
                self,
            )@[position as int].modules.len() && target_vetted(old(self)@, target) is Ok),
            final(self)@ == if aimed {
                old(self)@.update(
                    position as int,
                    old(self)@[position as int].with_aim(slot as int, target),
                )
            } else {
                old(self)@
            },
            fleet_wf(final(self)@),
            same_roster(old(self)@, final(self)@),
    {
        if position >= self.ships.len() {
            return false;
        }
        if slot as usize >= self.ships[position].modules.len() {
            return false;
        }
        let mut module = self.ships[position].modules[slot as usize];
        let plan = ModulePlan { powered: false, target };
        match module.vet_plan(&*self, plan) {
            Err(_) => false,
            Ok(()) => {
                module.take_plan(&*self, plan);
                let ghost ship = old(self)@[position as int];
                proof {
                    assert(ship.wf());
                    lemma_total_update(ship.modules, slot as int, module, Tally::Health);
                    lemma_total_update(ship.modules, slot as int, module, Tally::Spent);
                    lemma_total_update(ship.modules, slot as int, module, Tally::Claimed);
                }
                self.ships[position].modules[slot as usize] = module;
                proof {
                    assert(self@[position as int].modules =~= ship.modules.update(
                        slot as int,
                        module,
                    ));
                    assert(self@ =~= old(self)@.update(
                        position as int,
                        ship.with_aim(slot as int, target),
                    ));
                    lemma_fleet_wf_kept(old(self)@, self@);
                }
                true
            },
        }
    }

    /// Commits the plans of the ship at `position`.
    pub(crate) fn commit_plans(&mut self, position: usize)
        requires
            fleet_wf(old(self)@),
            position < old(self)@.len(),
        ensures
            final(self)@ == old(self)@.update(
                position as int,
                old(self)@[position as int].plans_applied(),
            ),
            fleet_wf(final(self)@),
            same_roster(old(self)@, final(self)@),
    {
        assert(self@[position as int].wf());
        self.ships[position].apply_module_plans();
        proof {
            assert(self@ =~= old(self)@.update(position as int, self@[position as int]));
            lemma_fleet_wf_kept(old(self)@, self@);
        }
    }

    /// Resets the bookkeeping of every module for the round. Only the server
    /// does so, once per round and before planning.
    pub fn server_preprocess(&mut self)
        requires
            fleet_wf(old(self)@),
        ensures
            final(self)@ == fleet_preprocessed(old(self)@),
            fleet_wf(final(self)@),
            same_roster(old(self)@, final(self)@),
    {
        let ghost before = self@;
        let n = self.ships.len();
        let mut i: usize = 0;
        while i < n
            invariant
                i <= n,
                n == self.ships.len(),
                n == before.len(),
                fleet_wf(before),
                forall|j: int| 0 <= j < i ==> self@[j] == before[j].preprocessed() && self@[j].wf(),
                forall|j: int| i <= j < n ==> self@[j] == before[j],
            decreases n - i,
        {
            let ghost prev = self@;
            assert(prev[i as int].wf());
            self.ships[i].server_preprocess();
            proof {
                assert(self@ =~= prev.update(i as int, before[i as int].preprocessed()));
            }
            i = i + 1;
        }
        proof {
            assert(self@ =~= fleet_preprocessed(before));
            lemma_fleet_wf_kept(before, self@);
        }
    }

    /// Sets every module up for the simulation of the round and lets each
    /// schedule what the committed plan makes it do: ship by ship, and within
    /// a ship in slot order.
    pub fn before_simulation(&mut self, events: &mut SimEvents)
        requires
            fleet_wf(old(self)@),
        ensures
            final(self)@ == fleet_launched(old(self)@),
            fleet_wf(final(self)@),
            same_roster(old(self)@, final(self)@),
            final(events)@ == fleet_volley(old(self)@, old(events)@),
    {
        let ghost before = self@;
        let n = self.ships.len();
        let mut i: usize = 0;
        while i < n
            invariant
                i <= n,
                n == self.ships.len(),
                n == before.len(),
                fleet_wf(before),
                forall|j: int| 0 <= j < i ==> self@[j] == before[j].launched() && self@[j].wf(),
                forall|j: int| i <= j < n ==> self@[j] == before[j],
                events@ == fleet_volley(before.take(i as int), old(events)@),
            decreases n - i,
        {
            let ghost prev = self@;
            proof {
                assert(prev[i as int].wf());
                assert(before.take(i + 1).drop_last() =~= before.take(i as int));
            }
            self.ships[i].before_simulation(events);
            proof {
                assert(self@ =~= prev.update(i as int, before[i as int].launched()));
            }
            i = i + 1;
        }
        proof {
            assert(before.take(n as int) =~= before);
            assert(self@ =~= fleet_launched(before));
            lemma_fleet_wf_kept(before, self@);
        }
    }

    /// Tells every module that every tick of the round has been applied.
    pub fn after_simulation(&mut self)
        ensures
            final(self)@ == old(self)@,
    {
        let ghost before = self@;
        let n = self.ships.len();
        let mut i: usize = 0;
        while i < n
            invariant
                i <= n,
                n == self.ships.len(),
                self@ == before,
            decreases n - i,
        {
            self.ships[i].after_simulation();
            proof {
                assert(self@ =~= before);
            }
            i = i + 1;
        }
    }

    /// Writes the committed plans of every ship, ship by ship.
    pub fn write_plans(&self, packet: &mut OutPacket)
        ensures
            final(packet)@ == old(packet)@ + fleet_plan_bytes(self@),
    {
        let mut i: usize = 0;
        proof {
            assert(self@.skip(0) =~= self@);
        }
        while i < self.ships.len()
            invariant
                i <= self.ships.len(),
                packet@ + fleet_plan_bytes(self@.skip(i as int)) == old(packet)@ + fleet_plan_bytes(
                    self@,
                ),
            decreases self.ships.len() - i,
        {
            let ghost written = packet@;
            self.ships[i].write_plans(packet);
            proof {
                let left = self@.skip(i as int);
                assert(left[0] == self@[i as int]);
                assert(left.skip(1) =~= self@.skip(i + 1));
                assert(packet@ + fleet_plan_bytes(self@.skip(i + 1)) =~= written + fleet_plan_bytes(
                    left,
                ));
            }
            i = i + 1;
        }
        proof {
            assert(packet@ + Seq::<u8>::empty() =~= packet@);
        }
    }

    /// The battle as it is once every ship has read its plans from the front
    /// of `packet` and taken them over, or why the first ship that cannot do
    /// so cannot. The battle itself is not touched; a packet that holds no
    /// such plans is left as it was.
    fn staged_plans(&self, packet: &mut InPacket) -> (r: Result<BattleContext, ProtocolError>)
        requires
            fleet_wf(self@),
        ensures
            match fleet_plans_read(self@, self@, old(packet)@) {
                Ok((ships, rest)) => r matches Ok(staged) && staged@ == ships && final(packet)@
                    == rest && fleet_wf(staged@) && same_roster(self@, staged@),
                Err(e) => r matches Err(refused) && refused == e && final(packet)@ == old(packet)@
                    && final(packet).consumed() == old(packet).consumed(),
            },
            final(packet).content() == old(packet).content(),
            final(packet).consumed() >= old(packet).consumed(),
    {
        let mark = packet.mark();
        let ghost before = self@;
        let ghost whole = fleet_plans_read(before, before, old(packet)@);
        let mut staged = BattleContext { ships: Vec::new() };
        let n = self.ships.len();
        let mut i: usize = 0;
        proof {
            assert(before.skip(0) =~= before);
            if let Ok((left, _)) = whole {
                assert(staged@ + left =~= left);
            }
        }
        while i < n
            invariant
                i <= n,
                n == self.ships.len(),
                before == self@,
                fleet_wf(before),
                i == staged.ships.len(),
                packet.content() == old(packet).content(),
                packet.consumed() >= old(packet).consumed(),
                mark == old(packet).consumed(),
                whole == fleet_plans_read(before, before, old(packet)@),
                whole == match fleet_plans_read(before, before.skip(i as int), packet@) {
                    Err(e) => Err::<(Seq<ShipView>, Seq<u8>), ProtocolError>(e),
                    Ok((left, rest)) => Ok((staged@ + left, rest)),
                },
                forall|j: int|
                    0 <= j < i ==> (#[trigger] staged@[j]).wf() && staged@[j].id == before[j].id
                        && staged@[j].client_id == before[j].client_id
                        && staged@[j].modules.len() == before[j].modules.len(),
            decreases n - i,
        {
            proof {
                let left = before.skip(i as int);
                assert(left[0] == before[i as int]);
                assert(left.skip(1) =~= before.skip(i + 1));
                assert(before[i as int].wf());
            }
            let ship = &self.ships[i];
            let ghost unread = packet@;
            let plans = match ship.parse_plans(packet) {
                Ok(plans) => plans,
                Err(e) => {
                    packet.reset(mark);
                    return Err(e);
                },
            };
            proof {
                lemma_plans_parsed_len(ship@.modules, unread);
            }
            let taken = match ship.with_plans(self, &plans) {
                Ok(taken) => taken,
                Err(e) => {
                    packet.reset(mark);
                    return Err(e);
                },
            };
            let ghost done = staged@;
            let ghost joined = taken@;
            staged.ships.push(taken);
            proof {
                assert(staged@ =~= done.push(joined));
                if let Ok((left, rest)) = fleet_plans_read(before, before.skip(i + 1), packet@) {
                    assert(done + (seq![joined] + left) =~= staged@ + left);
                }
            }
            i = i + 1;
        }
        proof {
            assert(staged@ + Seq::<ShipView>::empty() =~= staged@);
            lemma_fleet_wf_kept(before, staged@);
        }
        Ok(staged)
    }

    /// Whether every ship can read its plans from the front of `packet`, ship
    /// by ship, and take them over, and if not, why the first ship that cannot
    /// do so cannot. Neither the battle nor the packet is touched.
    pub fn check_plans(&self, packet: &mut InPacket) -> (r: Result<(), ProtocolError>)
        requires
            fleet_wf(self@),
        ensures
            r == match fleet_plans_read(self@, self@, old(packet)@) {
                Ok(_) => Ok::<(), ProtocolError>(()),
                Err(e) => Err::<(), ProtocolError>(e),
            },
            final(packet)@ == old(packet)@,
            final(packet).content() == old(packet).content(),
            final(packet).consumed() == old(packet).consumed(),
    {
        let mark = packet.mark();
        match self.staged_plans(packet) {
            Ok(_) => {
                packet.reset(mark);
                Ok(())
            },
            Err(e) => Err(e),
        }
    }

    /// Reads the plans of every ship, ship by ship, and takes them over.
    ///
    /// The packet must hold plans that every ship can read and take over:
    /// `check_plans` tells.
    pub fn read_plans(&mut self, packet: &mut InPacket)
        requires
            fleet_wf(old(self)@),
            fleet_plans_read(old(self)@, old(self)@, old(packet)@) is Ok,
        ensures
            fleet_plans_read(old(self)@, old(self)@, old(packet)@) == Ok::<
                (Seq<ShipView>, Seq<u8>),
                ProtocolError,
            >((final(self)@, final(packet)@)),
            fleet_wf(final(self)@),
            same_roster(old(self)@, final(self)@),
            final(packet).content() == old(packet).content(),
            final(packet).consumed() >= old(packet).consumed(),
    {
        let staged = self.staged_plans(packet).unwrap();
        self.ships = staged.ships;
        assert(self@ =~= staged@);
    }

    /// Reads the plans of the ship at `position` and takes them over. The
    /// packet must hold plans that the ship can read and take over.
    pub(crate) fn read_ship_plans(&mut self, position: usize, packet: &mut InPacket)
        requires
            fleet_wf(old(self)@),
            position < old(self)@.len(),
            old(self)@[position as int].plans_read(old(self)@, old(packet)@) is Ok,
        ensures
            old(self)@[position as int].plans_read(old(self)@, old(packet)@) == Ok::<
                (ShipView, Seq<u8>),
                ProtocolError,
            >((final(self)@[position as int], final(packet)@)),
            final(self)@ == old(self)@.update(position as int, final(self)@[position as int]),
            fleet_wf(final(self)@),
            same_roster(old(self)@, final(self)@),
            final(packet).content() == old(packet).content(),
            final(packet).consumed() >= old(packet).consumed(),
    {
        assert(self@[position as int].wf());
        let plans = self.ships[position].parse_plans(packet).unwrap();
        proof {
            lemma_plans_parsed_len(self@[position as int].modules, old(packet)@);
        }
        let taken = self.ships[position].with_plans(&*self, &plans).unwrap();
        let ghost ship = taken@;
        self.ships[position] = taken;
        proof {
            assert(self@ =~= old(self)@.update(position as int, ship));
            lemma_fleet_wf_kept(old(self)@, self@);
        }
    }

    /// Writes what the simulation decided about every module of every ship.
    pub fn write_results(&self, packet: &mut OutPacket)
        ensures
            final(packet)@ == old(packet)@,
    {
        let mut i: usize = 0;
        while i < self.ships.len()
            invariant
                i <= self.ships.len(),
                packet@ == old(packet)@,
            decreases self.ships.len() - i,
        {
            self.ships[i].write_results(packet);
            i = i + 1;
        }
    }

    /// Reads what `write_results` wrote.
    pub fn read_results(&mut self, packet: &mut InPacket)
        ensures
            final(self)@ == old(self)@,
            final(packet).content() == old(packet).content(),
            final(packet).consumed() == old(packet).consumed(),
    {
        let ghost before = self@;
        let n = self.ships.len();
        let mut i: usize = 0;
        while i < n
            invariant
                i <= n,
                n == self.ships.len(),
                self@ == before,
                packet.content() == old(packet).content(),
                packet.consumed() == old(packet).consumed(),
            decreases n - i,
        {
            self.ships[i].read_results(packet);
            proof {
                assert(self@ =~= before);
            }
            i = i + 1;
        }
    }
}

} // verus!
