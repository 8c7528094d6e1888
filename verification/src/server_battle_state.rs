//! The server's side of a round: collect the plans of every participant,
//! simulate once, and hand out the results.
//!
//! The state in here decides; it neither waits nor sends. Whoever drives it
//! hands over the plans that arrive once it has checked that the server takes
//! them, and sends what it is given to send.

use vstd::prelude::*;
use crate::battle_state::{
    fleet_plan_bytes, fleet_preprocessed, fleet_wf, position_of, BattleContext, ShipKey,
};
use crate::net::{expected_id, id_bytes, ClientId, InPacket, OutPacket, PacketId, ProtocolError};
use crate::ship::ShipView;
use crate::sim::{round_simulated, simulate_round};

verus! {

/// The battle as the server holds it, and whose plans for the round are in.
pub struct ServerBattleState {
    context: BattleContext,
    received: Vec<bool>,
}

/// The state of a server as a value.
pub struct ServerView {
    /// The ships of the battle.
    pub ships: Seq<ShipView>,
    /// For each ship, whether its plans for the round are in.
    pub received: Seq<bool>,
}

/// The `SimResults` message of a round: the plans that every ship has
/// committed, and what the simulation decided beyond the damage, which for the
/// kinds of module there are is nothing.
pub open spec fn results_message(ships: Seq<ShipView>) -> Seq<u8> {
    id_bytes(PacketId::SimResults) + fleet_plan_bytes(ships)
}

impl ServerView {
    /// The battle is well-formed, and there is a mark for each ship.
    pub open spec fn wf(self) -> bool {
        &&& fleet_wf(self.ships)
        &&& self.received.len() == self.ships.len()
    }

    /// Whether the plans of every ship that a participant controls are in.
    pub open spec fn complete(self) -> bool {
        forall|i: int|
            0 <= i < self.ships.len() && (#[trigger] self.ships[i]).client_id is Some
                ==> self.received[i]
    }

    /// The server at the start of a round: no plans are in, and the
    /// bookkeeping of every module is reset.
    pub open spec fn opened(ships: Seq<ShipView>) -> ServerView {
        ServerView {
            ships: fleet_preprocessed(ships),
            received: Seq::new(ships.len(), |i: int| false),
        }
    }

    /// The server after it has taken the `Plan` message `message` of the
    /// participant `client`, and the message that is then to be sent to every
    /// participant, if any; or why it does not take the message.
    ///
    /// The participant must control a ship whose plans are not in yet, and
    /// the ship must be able to take the plans over. With the last plans in,
    /// the round is simulated, its results go out, and the next round opens.
    pub open spec fn after_plan(self, client: ClientId, message: Seq<u8>) -> Result<
        (ServerView, Option<Seq<u8>>),
        ProtocolError,
    > {
        match expected_id(message, PacketId::Plan) {
            Err(e) => Err(e),
            Ok(()) => match position_of(self.ships, ShipKey::Client(client)) {
                None => Err(ProtocolError::UnknownShip),
                Some(i) => if self.received[i] {
                    Err(ProtocolError::OutOfTurn)
                } else {
                    match self.ships[i].plans_read(self.ships, message.skip(1)) {
                        Err(e) => Err(e),
                        Ok((ship, _)) => {
                            let planned = ServerView {
                                ships: self.ships.update(i, ship),
                                received: self.received.update(i, true),
                            };
                            if planned.complete() {
                                Ok(
                                    (
                                        Self::opened(round_simulated(planned.ships)),
                                        Some(results_message(planned.ships)),
                                    ),
                                )
                            } else {
                                Ok((planned, None))
                            }
                        },
                    }
                },
            },
        }
    }
}

impl View for ServerBattleState {
    type V = ServerView;

    closed spec fn view(&self) -> ServerView {
        ServerView { ships: self.context@, received: self.received@ }
    }
}

impl ServerBattleState {
    /// The server at the start of a battle, if the battle is well-formed.
    pub fn new(context: BattleContext) -> (state: Option<ServerBattleState>)
        ensures
            match state {
                Some(state) => fleet_wf(context@) && state@ == ServerView::opened(context@)
                    && state@.wf(),
                None => !fleet_wf(context@),
            },
    {
        if !context.is_valid() {
            return None;
        }
        let mut state = ServerBattleState { context, received: Vec::new() };
        state.open_round();
        Some(state)
    }

    /// The battle.
    pub fn context(&self) -> (context: &BattleContext)
        ensures
            context@ == self@.ships,
    {
        &self.context
    }

    /// Opens a round: forgets whose plans were in and resets the bookkeeping
    /// of every module.
    fn open_round(&mut self)
        requires
            fleet_wf(old(self).context@),
        ensures
            final(self)@ == ServerView::opened(old(self).context@),
            final(self)@.wf(),
    {
        self.context.server_preprocess();
        let mut received: Vec<bool> = Vec::new();
        let mut i: usize = 0;
        while i < self.context.ships.len()
            invariant
                i <= self.context.ships.len(),
                received@.len() == i,
                forall|j: int| 0 <= j < i ==> !received@[j],
            decreases self.context.ships.len() - i,
        {
            received.push(false);
            i = i + 1;
        }
        self.received = received;
        assert(self.received@ =~= ServerView::opened(old(self).context@).received);
    }

    /// Whether the plans of every ship that a participant controls are in.
    fn is_complete(&self) -> (complete: bool)
        requires
            self@.wf(),
        ensures
            complete == self@.complete(),
    {
        let mut i: usize = 0;
        while i < self.context.ships.len()
            invariant
                i <= self.context.ships.len(),
                self.received@.len() == self.context.ships@.len(),
                forall|j: int|
                    0 <= j < i && (#[trigger] self@.ships[j]).client_id is Some
                        ==> self.received@[j],
            decreases self.context.ships.len() - i,
        {
            assert(self@.ships[i as int] == self.context.ships@[i as int]@);
            if self.context.ships[i].client_id.is_some() && !self.received[i] {
                return false;
            }
            i = i + 1;
        }
        true
    }

    /// Whether the server takes the message `message` of the participant
    /// `client` now, and if not, why not: it is no `Plan` message, the
    /// participant controls no ship, the plans of its ship are in already, or
    /// the ship cannot read its plans from the message or cannot take them
    /// over. Nothing is changed.
    pub fn check_plan(&self, client: ClientId, message: &Vec<u8>) -> (r: Result<(), ProtocolError>)
        requires
            self@.wf(),
        ensures
            r == match self@.after_plan(client, message@) {
                Ok(_) => Ok::<(), ProtocolError>(()),
                Err(e) => Err::<(), ProtocolError>(e),
            },
    {
        let mut packet = InPacket::copy_of(message);
        match packet.expect_id(PacketId::Plan) {
            Err(e) => {
                return Err(e);
            },
            Ok(()) => {},
        }
        let position = match self.context.find_ship(ShipKey::Client(client)) {
            None => {
                return Err(ProtocolError::UnknownShip);
            },
            Some(position) => position,
        };
        if self.received[position] {
            return Err(ProtocolError::OutOfTurn);
        }
        assert(self@.ships[position as int].wf());
        self.context.ships[position].check_plans(&self.context, &mut packet)
    }

    /// Hands the server the `Plan` message `message` of the participant
    /// `client`, and returns the message that is to be sent to every
    /// participant now, if any: the results of the round, once the plans of
    /// every participant are in.
    ///
    /// The message must be one that the server takes now: `check_plan` tells.
    pub fn plan_received(&mut self, client: ClientId, message: Vec<u8>) -> (out: Option<Vec<u8>>)
        requires
            old(self)@.wf(),
            old(self)@.after_plan(client, message@) is Ok,
        ensures
            final(self)@.wf(),
            old(self)@.after_plan(client, message@) matches Ok((next, sent)) && final(self)@
                == next && match sent {
                Some(bytes) => out matches Some(results) && results@ == bytes,
                None => out is None,
            },
    {
        let mut packet = InPacket::new(message);
        packet.expect_id(PacketId::Plan).unwrap();
        let position = self.context.find_ship(ShipKey::Client(client)).unwrap();
        self.context.read_ship_plans(position, &mut packet);
        self.received[position] = true;
        assert(self.received@ =~= old(self).received@.update(position as int, true));
        if !self.is_complete() {
            return None;
        }
        let mut results = OutPacket::new();
        results.write_id(PacketId::SimResults);
        self.context.write_plans(&mut results);
        simulate_round(&mut self.context);
        self.context.write_results(&mut results);
        self.open_round();
        Some(results.into_bytes())
    }
}

} // verus!
