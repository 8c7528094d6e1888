//! The client's side of a round: plan, send the plans, wait for the results,
//! replay them.
//!
//! The state in here decides; it neither waits nor sends. Whoever drives it
//! reports how much time of the current phase has passed, sends what it is
//! given to send, and hands over the results that arrive once it has checked
//! that the client takes them.

use vstd::prelude::*;
use crate::battle_state::{
    fleet_launched, fleet_plans_read, fleet_volley, fleet_wf, position_of, spec_tick_at, tick_at,
    BattleContext, ShipKey, PLANNING_SECONDS, ROUND_TICKS, SIMULATION_SECONDS,
};
use crate::module::proj_weapon::target_vetted;
use crate::net::{
    expected_id, id_bytes, ClientId, InPacket, OutPacket, PacketId, ProtocolError,
};
use crate::ship::{Ship, ShipId, ShipView};
use crate::sim::{lemma_ticks_in_two_runs, ticks_applied, SimEvents, SimEventsView, Tick};

verus! {

/// Where in the round a client is.
#[derive(Clone, Copy, Debug, PartialEq, Eq, Structural)]
pub enum ClientPhase {
    /// The participant chooses what to power and what to aim at.
    Planning,
    /// The plans have been sent; the results have not arrived.
    AwaitingResults,
    /// The results are being replayed tick by tick.
    Replaying,
}

/// The battle as one participant sees it, and where in the round it is.
pub struct ClientBattleState {
    context: BattleContext,
    player: usize,
    phase: ClientPhase,
    events: SimEvents,
}

/// The state of a client as a value.
pub struct ClientView {
    /// The ships of the battle.
    pub ships: Seq<ShipView>,
    /// The position of the participant's ship among them.
    pub player: int,
    /// Where in the round the client is.
    pub phase: ClientPhase,
    /// The schedule of the round that is being replayed.
    pub events: SimEventsView,
}

/// A schedule that holds nothing, with every tick still to come.
pub open spec fn fresh_schedule() -> SimEventsView {
    SimEventsView { schedule: Seq::empty(), last_applied: None }
}

impl ClientView {
    /// The battle is well-formed and the participant's ship is part of it.
    pub open spec fn wf(self) -> bool {
        &&& fleet_wf(self.ships)
        &&& 0 <= self.player < self.ships.len()
    }

    /// The battle as it will be when the replay is over: with every tick of
    /// the round applied that has not been applied yet.
    pub open spec fn outcome(self) -> Seq<ShipView> {
        ticks_applied(self.ships, self.events.schedule, self.events.next_tick(), ROUND_TICKS - 1)
    }

    /// The client after `through` and every tick before it has been applied.
    pub open spec fn replayed(self, through: Tick) -> ClientView {
        ClientView {
            ships: ticks_applied(
                self.ships,
                self.events.schedule,
                self.events.next_tick(),
                through as int,
            ),
            events: if self.events.is_open(through) {
                self.events.closed(through)
            } else {
                self.events
            },
            ..self
        }
    }

    /// The client when `elapsed_ms` milliseconds of its phase have passed, and
    /// the message that it then has to send, if any.
    ///
    /// While planning, nothing happens until the time for planning is over;
    /// then the plans of the participant's ship are committed and go out as a
    /// `Plan` message. While the results are awaited, nothing happens. While
    /// replaying, every tick up to the current one is applied; once the time
    /// for the simulation is over, every tick of the round is, and planning
    /// begins again.
    pub open spec fn after_elapsed(self, elapsed_ms: u64) -> (ClientView, Option<Seq<u8>>) {
        match self.phase {
            ClientPhase::Planning => if elapsed_ms / 1000 < PLANNING_SECONDS {
                (self, None)
            } else {
                let ship = self.ships[self.player].plans_applied();
                (
                    ClientView {
                        ships: self.ships.update(self.player, ship),
                        phase: ClientPhase::AwaitingResults,
                        ..self
                    },
                    Some(id_bytes(PacketId::Plan) + ship.plan_bytes()),
                )
            },
            ClientPhase::AwaitingResults => (self, None),
            ClientPhase::Replaying => if elapsed_ms / 1000 < SIMULATION_SECONDS {
                (self.replayed(spec_tick_at(elapsed_ms)), None)
            } else {
                (
                    ClientView {
                        phase: ClientPhase::Planning,
                        ..self.replayed((ROUND_TICKS - 1) as u64)
                    },
                    None,
                )
            },
        }
    }

    /// The client after it has taken `message`, or why it does not take it.
    ///
    /// A message is taken only while the results are awaited, and only a
    /// `SimResults` message whose plans every ship can read and take over.
    /// Every ship takes over the plans in it, and every module is set up for
    /// the replay and schedules what the plans make it do.
    pub open spec fn after_message(self, message: Seq<u8>) -> Result<ClientView, ProtocolError> {
        if self.phase != ClientPhase::AwaitingResults {
            Err(ProtocolError::OutOfTurn)
        } else {
            match expected_id(message, PacketId::SimResults) {
                Err(e) => Err(e),
                Ok(()) => match fleet_plans_read(self.ships, self.ships, message.skip(1)) {
                    Err(e) => Err(e),
                    Ok((ships, _)) => Ok(
                        ClientView {
                            ships: fleet_launched(ships),
                            events: fleet_volley(ships, fresh_schedule()),
                            phase: ClientPhase::Replaying,
                            ..self
                        },
                    ),
                },
            }
        }
    }
}

/// How the time of the replay is cut into steps does not matter: a step that
/// leaves the replay running leaves its outcome what it was, and the step that
/// ends the replay ends it in that outcome.
pub proof fn lemma_replay_ignores_clock(state: ClientView, elapsed_ms: u64)
    requires
        state.phase == ClientPhase::Replaying,
    ensures
        ({
            let next = state.after_elapsed(elapsed_ms).0;
            if next.phase == ClientPhase::Replaying {
                next.outcome() == state.outcome()
            } else {
                next.ships == state.outcome()
            }
        }),
{
    if elapsed_ms / 1000 < SIMULATION_SECONDS {
        let through = spec_tick_at(elapsed_ms);
        if state.events.is_open(through) {
            lemma_ticks_in_two_runs(
                state.ships,
                state.events.schedule,
                state.events.next_tick(),
                through as int,
                ROUND_TICKS - 1,
            );
        }
    }
}

impl View for ClientBattleState {
    type V = ClientView;

    closed spec fn view(&self) -> ClientView {
        ClientView {
            ships: self.context@,
            player: self.player as int,
            phase: self.phase,
            events: self.events@,
        }
    }
}

impl ClientBattleState {
    /// The client of the participant `client` at the start of a battle, if the
    /// battle is well-formed and the participant controls a ship in it.
    pub fn new(client: ClientId, context: BattleContext) -> (state: Option<ClientBattleState>)
        ensures
            match state {
                Some(state) => {
                    &&& fleet_wf(context@)
                    &&& position_of(context@, ShipKey::Client(client)) == Some(state@.player)
                    &&& state@ == (ClientView {
                        ships: context@,
                        player: state@.player,
                        phase: ClientPhase::Planning,
                        events: fresh_schedule(),
                    })
                    &&& state@.wf()
                },
                None => !fleet_wf(context@) || position_of(context@, ShipKey::Client(client))
                    is None,
            },
    {
        if !context.is_valid() {
            return None;
        }
        match context.find_ship(ShipKey::Client(client)) {
            None => None,
            Some(player) => Some(
                ClientBattleState {
                    context,
                    player,
                    phase: ClientPhase::Planning,
                    events: SimEvents::new(),
                },
            ),
        }
    }

    /// Where in the round the client is.
    pub fn phase(&self) -> (phase: ClientPhase)
        ensures
            phase == self@.phase,
    {
        self.phase
    }

    /// The battle.
    pub fn context(&self) -> (context: &BattleContext)
        ensures
            context@ == self@.ships,
    {
        &self.context
    }

    /// The participant's ship.
    pub fn player_ship(&self) -> (ship: &Ship)
        requires
            self@.wf(),
        ensures
            ship@ == self@.ships[self@.player],
    {
        &self.context.ships[self.player]
    }

    /// Plans the module in `slot` of the participant's ship to run or not to
    /// run, and tells whether it did. Plans are taken only while planning.
    pub fn plan_module(&mut self, slot: u32, powered: bool) -> (planned: bool)
        requires
            old(self)@.wf(),
        ensures
            final(self)@.wf(),
            planned == (old(self)@.phase == ClientPhase::Planning && old(
                self,
            )@.ships[old(self)@.player].can_plan(slot as int, powered)),
            final(self)@ == if planned {
                ClientView {
                    ships: old(self)@.ships.update(
                        old(self)@.player,
                        old(self)@.ships[old(self)@.player].with_plan(slot as int, powered),
                    ),
                    ..old(self)@
                }
            } else {
                old(self)@
            },
    {
        match self.phase {
            ClientPhase::Planning => self.context.plan_module(self.player, slot, powered),
            _ => false,
        }
    }

    /// Aims the module in `slot` of the participant's ship at `target`, and
    /// tells whether it did: it does while planning, if the ship has the slot
    /// and the battle has the target.
    pub fn plan_target(&mut self, slot: u32, target: Option<(ShipId, u32)>) -> (aimed: bool)
        requires
            old(self)@.wf(),
        ensures
            final(self)@.wf(),
            aimed == (old(self)@.phase == ClientPhase::Planning && slot < old(
                self,
            )@.ships[old(self)@.player].modules.len() && target_vetted(old(self)@.ships, target)
                is Ok),
            final(self)@ == if aimed {
                ClientView {
                    ships: old(self)@.ships.update(
                        old(self)@.player,
                        old(self)@.ships[old(self)@.player].with_aim(slot as int, target),
                    ),
                    ..old(self)@
                }
            } else {
                old(self)@
            },
    {
        match self.phase {
            ClientPhase::Planning => self.context.aim_module(self.player, slot, target),
            _ => false,
        }
    }

    /// Tells the client that `elapsed_ms` milliseconds of its phase have
    /// passed, and returns the message that is to be sent now, if any.
    pub fn elapsed(&mut self, elapsed_ms: u64) -> (message: Option<Vec<u8>>)
        requires
            old(self)@.wf(),
        ensures
            final(self)@.wf(),
            final(self)@ == old(self)@.after_elapsed(elapsed_ms).0,
            match old(self)@.after_elapsed(elapsed_ms).1 {
                Some(bytes) => message matches Some(sent) && sent@ == bytes,
                None => message is None,
            },
    {
        match self.phase {
            ClientPhase::Planning => {
                if elapsed_ms / 1000 < PLANNING_SECONDS {
                    return None;
                }
                self.context.commit_plans(self.player);
                let mut packet = OutPacket::new();
                packet.write_id(PacketId::Plan);
                self.context.ships[self.player].write_plans(&mut packet);
                self.phase = ClientPhase::AwaitingResults;
                Some(packet.into_bytes())
            },
            ClientPhase::AwaitingResults => None,
            ClientPhase::Replaying => {
                if elapsed_ms / 1000 < SIMULATION_SECONDS {
                    self.events.apply_through(&mut self.context, tick_at(elapsed_ms));
                } else {
                    self.events.apply_through(&mut self.context, ROUND_TICKS - 1);
                    self.context.after_simulation();
                    self.phase = ClientPhase::Planning;
                }
                None
            },
        }
    }

    /// Whether the client takes `message` now, and if not, why not: it is not
    /// awaiting results, the message is no `SimResults` message, or a ship
    /// cannot read its plans from it or cannot take them over. Nothing is
    /// changed.
    pub fn check_results(&self, message: &Vec<u8>) -> (r: Result<(), ProtocolError>)
        requires
            self@.wf(),
        ensures
            r == match self@.after_message(message@) {
                Ok(_) => Ok::<(), ProtocolError>(()),
                Err(e) => Err::<(), ProtocolError>(e),
            },
    {
        match self.phase {
            ClientPhase::AwaitingResults => {},
            _ => {
                return Err(ProtocolError::OutOfTurn);
            },
        }
        let mut packet = InPacket::copy_of(message);
        match packet.expect_id(PacketId::SimResults) {
            Err(e) => {
                return Err(e);
            },
            Ok(()) => {},
        }
        self.context.check_plans(&mut packet)
    }

    /// Hands the client the results that it awaits: every ship takes over the
    /// plans in the message, and the replay of the round is set up.
    ///
    /// The client must be awaiting results, and `message` must be a
    /// `SimResults` message whose plans every ship can read and take over:
    /// `check_results` tells.
    pub fn received(&mut self, message: Vec<u8>)
        requires
            old(self)@.wf(),
            old(self)@.after_message(message@) is Ok,
        ensures
            final(self)@.wf(),
            old(self)@.after_message(message@) == Ok::<ClientView, ProtocolError>(final(self)@),
    {
        let mut packet = InPacket::new(message);
        packet.expect_id(PacketId::SimResults).unwrap();

        // Results packet has both plans and results
        self.context.read_plans(&mut packet);
        self.context.read_results(&mut packet);
        self.events = SimEvents::new();
        self.context.before_simulation(&mut self.events);
        self.phase = ClientPhase::Replaying;
    }
}

} // verus!
