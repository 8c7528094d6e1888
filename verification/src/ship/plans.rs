//! The plans of a ship on the wire: writing the committed plan of every
//! module, and taking over a plan that was received.
//!
//! A plan is read as a whole, then checked against the ship and the battle,
//! and only then taken over. The functions that read plans take only plans
//! that can be read and taken over; the functions that check tell which those
//! are, and change nothing.

use vstd::prelude::*;
use crate::battle_state::BattleContext;
use crate::module::proj_weapon::target_vetted;
use crate::module::{
    lemma_plan_round_trip, lemma_spent_within_claimed, lemma_total_front, lemma_total_member,
    lemma_total_update, plan_parsed, total_of, Module, ModuleBase, ModulePlan, Tally,
};
use crate::net::{InPacket, OutPacket, ProtocolError};
use crate::ship::{
    lemma_plans_applied_in_order, plan_step, plans_committed, Ship, ShipState, ShipView,
};

verus! {

/// The encoding of the plans of a ship's modules: one after the other, in slot
/// order.
pub open spec fn plans_bytes(plans: Seq<ModulePlan>) -> Seq<u8>
    decreases plans.len(),
{
    if plans.len() == 0 {
        Seq::empty()
    } else {
        plans[0].bytes() + plans_bytes(plans.skip(1))
    }
}

/// What reading the plans of `modules` from the front of `bytes` gives, and
/// the bytes that follow them. The first plan that cannot be read decides.
pub open spec fn plans_parsed(modules: Seq<Module>, bytes: Seq<u8>) -> Result<
    (Seq<ModulePlan>, Seq<u8>),
    ProtocolError,
>
    decreases modules.len(),
{
    if modules.len() == 0 {
        Ok((Seq::empty(), bytes))
    } else {
        match plan_parsed(modules[0], bytes) {
            Err(e) => Err(e),
            Ok((plan, rest)) => match plans_parsed(modules.skip(1), rest) {
                Err(e) => Err(e),
                Ok((plans, rest)) => Ok((seq![plan] + plans, rest)),
            },
        }
    }
}

/// The ship's state after a module has been told whether it runs.
///
/// A module that is switched on takes the power it draws out of both pools; it
/// must be healthy enough to run, and both pools must hold that much. A module
/// that is switched off gives its power back to both pools.
pub open spec fn power_received(state: ShipState, base: ModuleBase, powered: bool) -> Result<
    ShipState,
    ProtocolError,
> {
    if powered && !base.powered {
        if base.can_activate() && base.power <= state.power && base.power <= state.plan_power {
            Ok(state.with_power_removed(base.power))
        } else {
            Err(ProtocolError::PowerMismatch)
        }
    } else if !powered && base.powered {
        Ok(state.with_power_added(base.power))
    } else {
        Ok(state)
    }
}

/// The ship's state and a module after the module has taken over `plan`, or
/// why it cannot: the power is looked at first, then what the plan refers to.
/// A plan that is taken over is consumed: the module then plans to be what it
/// is.
pub open spec fn plan_received(
    state: ShipState,
    module: Module,
    ships: Seq<ShipView>,
    plan: ModulePlan,
) -> Result<(ShipState, Module), ProtocolError> {
    match power_received(state, module.base(), plan.powered) {
        Err(e) => Err(e),
        Ok(state) => match module.plan_vetted(ships, plan) {
            Err(e) => Err(e),
            Ok(()) => Ok((state, module.planned(plan))),
        },
    }
}

/// The ship's state and its modules after each module has taken over its plan,
/// in slot order, or why the first module that cannot take its plan cannot.
pub open spec fn plans_received(
    state: ShipState,
    modules: Seq<Module>,
    ships: Seq<ShipView>,
    plans: Seq<ModulePlan>,
) -> Result<(ShipState, Seq<Module>), ProtocolError>
    decreases modules.len(),
{
    if modules.len() == 0 {
        Ok((state, Seq::empty()))
    } else {
        match plan_received(state, modules[0], ships, plans[0]) {
            Err(e) => Err(e),
            Ok((state, module)) => match plans_received(
                state,
                modules.skip(1),
                ships,
                plans.skip(1),
            ) {
                Err(e) => Err(e),
                Ok((state, modules)) => Ok((state, seq![module] + modules)),
            },
        }
    }
}

impl ShipView {
    /// The committed plan of every module, in slot order.
    pub open spec fn plans(self) -> Seq<ModulePlan> {
        Seq::new(self.modules.len(), |i: int| self.modules[i].plan())
    }

    /// The encoding of the ship's committed plans.
    pub open spec fn plan_bytes(self) -> Seq<u8> {
        plans_bytes(self.plans())
    }

    /// The ship after it has taken over `plans`, or why it cannot.
    pub open spec fn with_plans(self, ships: Seq<ShipView>, plans: Seq<ModulePlan>) -> Result<
        ShipView,
        ProtocolError,
    > {
        match plans_received(self.state, self.modules, ships, plans) {
            Err(e) => Err(e),
            Ok((state, modules)) => Ok(ShipView { state, modules, ..self }),
        }
    }

    /// The ship after it has read its plans from the front of `bytes` and
    /// taken them over, and the bytes that follow them; or why it cannot.
    pub open spec fn plans_read(self, ships: Seq<ShipView>, bytes: Seq<u8>) -> Result<
        (ShipView, Seq<u8>),
        ProtocolError,
    > {
        match plans_parsed(self.modules, bytes) {
            Err(e) => Err(e),
            Ok((plans, rest)) => match self.with_plans(ships, plans) {
                Err(e) => Err(e),
                Ok(ship) => Ok((ship, rest)),
            },
        }
    }
}

/// As many plans are read as there are modules.
pub proof fn lemma_plans_parsed_len(modules: Seq<Module>, bytes: Seq<u8>)
    ensures
        plans_parsed(modules, bytes) matches Ok((plans, _)) ==> plans.len() == modules.len(),
    decreases modules.len(),
{
    if modules.len() > 0 {
        if let Ok((_, rest)) = plan_parsed(modules[0], bytes) {
            lemma_plans_parsed_len(modules.skip(1), rest);
        }
    }
}

/// Plans that were written are read back by a ship with as many modules, and
/// what followed them is left.
pub proof fn lemma_plans_round_trip(modules: Seq<Module>, plans: Seq<ModulePlan>, rest: Seq<u8>)
    requires
        modules.len() == plans.len(),
    ensures
        plans_parsed(modules, plans_bytes(plans) + rest) == Ok::<
            (Seq<ModulePlan>, Seq<u8>),
            ProtocolError,
        >((plans, rest)),
    decreases modules.len(),
{
    if modules.len() == 0 {
        assert(plans_bytes(plans) + rest =~= rest);
        assert(plans =~= Seq::empty());
    } else {
        let tail = plans_bytes(plans.skip(1)) + rest;
        assert(plans_bytes(plans) + rest =~= plans[0].bytes() + tail);
        lemma_plan_round_trip(modules[0], plans[0], tail);
        lemma_plans_round_trip(modules.skip(1), plans.skip(1), rest);
        assert(seq![plans[0]] + plans.skip(1) =~= plans);
    }
}

/// A ship that has taken over plans has them as its committed plans: every
/// module runs or not as its plan says, and aims at what its plan says, which
/// the battle has.
pub proof fn lemma_plans_taken(
    state: ShipState,
    modules: Seq<Module>,
    ships: Seq<ShipView>,
    plans: Seq<ModulePlan>,
)
    requires
        modules.len() == plans.len(),
    ensures
        plans_received(state, modules, ships, plans) matches Ok((_, taken)) ==> {
            &&& taken.len() == modules.len()
            &&& forall|i: int|
                0 <= i < taken.len() ==> (#[trigger] taken[i]).plan() == plans[i]
                    && target_vetted(ships, taken[i].plan().target) is Ok
        },
    decreases modules.len(),
{
    if modules.len() > 0 {
        if let Ok((state, module)) = plan_received(state, modules[0], ships, plans[0]) {
            lemma_plans_taken(state, modules.skip(1), ships, plans.skip(1));
            if let Ok((_, rest)) = plans_received(state, modules.skip(1), ships, plans.skip(1)) {
                let taken = seq![module] + rest;
                assert forall|i: int| 0 <= i < taken.len() implies (#[trigger] taken[i]).plan()
                    == plans[i] && target_vetted(ships, taken[i].plan().target) is Ok by {
                    if i > 0 {
                        assert(taken[i] == rest[i - 1]);
                        assert(plans[i] == plans.skip(1)[i - 1]);
                    }
                }
            }
        }
    }
}

/// What one ship writes, a ship with as many modules reads: unless it
/// refuses the plans, the receiving ship then runs the modules that the
/// sending ship runs and aims where the sending ship aims, and what followed
/// the plans in the message is left.
pub proof fn lemma_plans_reproduced(
    sender: ShipView,
    receiver: ShipView,
    ships: Seq<ShipView>,
    rest: Seq<u8>,
)
    requires
        sender.modules.len() == receiver.modules.len(),
    ensures
        match receiver.with_plans(ships, sender.plans()) {
            Ok(taken) => receiver.plans_read(ships, sender.plan_bytes() + rest) == Ok::<
                (ShipView, Seq<u8>),
                ProtocolError,
            >((taken, rest)) && taken.plans() == sender.plans(),
            Err(e) => receiver.plans_read(ships, sender.plan_bytes() + rest) == Err::<
                (ShipView, Seq<u8>),
                ProtocolError,
            >(e),
        },
{
    lemma_plans_round_trip(receiver.modules, sender.plans(), rest);
    lemma_plans_taken(receiver.state, receiver.modules, ships, sender.plans());
    if let Ok(taken) = receiver.with_plans(ships, sender.plans()) {
        assert(taken.plans() =~= sender.plans());
    }
}

/// What a ship has written, a ship with as many modules that reads it runs
/// and aims by: after the reading every module of the reader runs if and only
/// if its counterpart in the writer runs, and aims at what its counterpart
/// aims at, and the packet is read to its end.
pub proof fn lemma_written_plans_are_read(
    sender: ShipView,
    receiver: ShipView,
    ships: Seq<ShipView>,
)
    requires
        sender.modules.len() == receiver.modules.len(),
        receiver.plans_read(ships, sender.plan_bytes()) is Ok,
    ensures
        receiver.plans_read(ships, sender.plan_bytes()) matches Ok((taken, rest)) && {
            &&& rest.len() == 0
            &&& taken.modules.len() == sender.modules.len()
            &&& forall|i: int|
                0 <= i < sender.modules.len() ==> {
                    &&& (#[trigger] taken.modules[i]).base().powered
                        == sender.modules[i].base().powered
                    &&& taken.modules[i].plan().target == sender.modules[i].plan().target
                }
        },
{
    let rest = Seq::<u8>::empty();
    assert(sender.plan_bytes() + rest =~= sender.plan_bytes());
    lemma_plans_reproduced(sender, receiver, ships, rest);
    let taken = receiver.plans_read(ships, sender.plan_bytes())->Ok_0.0;
    assert(taken.plans().len() == sender.plans().len());
    assert forall|i: int| 0 <= i < sender.modules.len() implies {
        &&& (#[trigger] taken.modules[i]).base().powered == sender.modules[i].base().powered
        &&& taken.modules[i].plan().target == sender.modules[i].plan().target
    } by {
        assert(taken.plans()[i] == sender.plans()[i]);
    }
}

/// Whether the modules of two copies of a ship agree in what decides whether
/// a module can be switched: each runs in both or in neither, has the same
/// health and needs the same, and draws the same power.
pub open spec fn same_footing(reader: Seq<Module>, planner: Seq<Module>) -> bool {
    &&& reader.len() == planner.len()
    &&& forall|i: int|
        0 <= i < reader.len() ==> {
            let (r, p) = ((#[trigger] reader[i]).base(), planner[i].base());
            &&& r.powered == p.powered
            &&& r.hp == p.hp
            &&& r.min_hp == p.min_hp
            &&& r.power == p.power
        }
}

/// The committed plans of `modules`.
pub open spec fn plans_of(modules: Seq<Module>) -> Seq<ModulePlan> {
    Seq::new(modules.len(), |i: int| modules[i].plan())
}

/// The step of `lemma_committed_plans_are_taken`: from any slot on, a copy
/// that has as much power as the planning ship, and no less in its planned
/// pool, can follow what the planning ship commits.
proof fn lemma_follows(
    reader: ShipState,
    planner: ShipState,
    modules: Seq<Module>,
    planned: Seq<Module>,
    ships: Seq<ShipView>,
)
    requires
        same_footing(modules, planned),
        reader.power == planner.power,
        reader.power <= reader.plan_power,
        reader.plan_power + total_of(modules, Tally::Spent) <= u8::MAX,
        forall|i: int|
            0 <= i < planned.len() ==> target_vetted(ships, (#[trigger] planned[i]).plan().target)
                is Ok,
    ensures
        plans_received(reader, modules, ships, plans_of(plans_committed(planner, planned).1))
            matches Ok((state, _)) && state.power == plans_committed(planner, planned).0.power,
    decreases modules.len(),
{
    if modules.len() > 0 {
        let (next_planner, first) = plan_step(planner, planned[0]);
        let (_, others) = plans_committed(next_planner, planned.skip(1));
        let plans = plans_of(plans_committed(planner, planned).1);
        assert(plans[0] == first.plan());
        assert(plans.skip(1) =~= plans_of(others));
        assert(modules[0].base().powered == planned[0].base().powered);
        lemma_total_front(modules, Tally::Spent);
        let next_reader = plan_received(reader, modules[0], ships, plans[0])->Ok_0.0;
        assert forall|i: int| 0 <= i < planned.skip(1).len() implies target_vetted(
            ships,
            (#[trigger] planned.skip(1)[i]).plan().target,
        ) is Ok by {
            assert(planned.skip(1)[i] == planned[i + 1]);
        }
        assert forall|i: int| 0 <= i < modules.skip(1).len() implies {
            let (r, p) = ((#[trigger] modules.skip(1)[i]).base(), planned.skip(1)[i].base());
            &&& r.powered == p.powered
            &&& r.hp == p.hp
            &&& r.min_hp == p.min_hp
            &&& r.power == p.power
        } by {
            assert(modules.skip(1)[i] == modules[i + 1]);
            assert(planned.skip(1)[i] == planned[i + 1]);
        }
        lemma_follows(next_reader, next_planner, modules.skip(1), planned.skip(1), ships);
    }
}

/// A copy of a ship can follow what the ship commits: where the copy stands
/// on the same footing as the ship that plans, has as much power, and no less
/// in its planned pool, and the battle has what the ship aims at, the copy
/// takes over the plans that the ship commits, and then runs the modules that
/// the ship runs with the power that the ship has left.
pub proof fn lemma_committed_plans_are_taken(
    reader: ShipView,
    planner: ShipView,
    ships: Seq<ShipView>,
)
    requires
        reader.wf(),
        same_footing(reader.modules, planner.modules),
        reader.state.power == planner.state.power,
        reader.state.power <= reader.state.plan_power,
        forall|i: int|
            0 <= i < planner.modules.len() ==> target_vetted(
                ships,
                (#[trigger] planner.modules[i]).plan().target,
            ) is Ok,
    ensures
        reader.with_plans(ships, planner.plans_applied().plans()) matches Ok(taken) && {
            &&& taken.state.power == planner.plans_applied().state.power
            &&& taken.plans() == planner.plans_applied().plans()
        },
{
    lemma_plans_applied_in_order(planner);
    lemma_spent_within_claimed(reader.modules);
    lemma_follows(reader.state, planner.state, reader.modules, planner.modules, ships);
    let committed = plans_committed(planner.state, planner.modules).1;
    assert(planner.plans_applied().plans() =~= plans_of(committed));
    lemma_committed_len(planner.state, planner.modules);
    lemma_plans_taken(reader.state, reader.modules, ships, plans_of(committed));
    let taken = reader.with_plans(ships, plans_of(committed))->Ok_0;
    assert(taken.plans() =~= plans_of(committed));
}

/// Committing plans keeps the number of modules.
proof fn lemma_committed_len(state: ShipState, modules: Seq<Module>)
    ensures
        plans_committed(state, modules).1.len() == modules.len(),
    decreases modules.len(),
{
    if modules.len() > 0 {
        lemma_committed_len(plan_step(state, modules[0]).0, modules.skip(1));
    }
}

/// Lets one module take over its plan.
fn receive_plan(
    state: &mut ShipState,
    module: &mut Module,
    context: &BattleContext,
    plan: ModulePlan,
) -> (r: Result<(), ProtocolError>)
    requires
        old(module).base().powered ==> {
            &&& old(state).power + old(module).base().power <= u8::MAX
            &&& old(state).plan_power + old(module).base().power <= u8::MAX
        },
    ensures
        match plan_received(*old(state), *old(module), context@, plan) {
            Ok((received, taken)) => r is Ok && *final(state) == received && *final(module)
                == taken,
            Err(e) => r == Err::<(), ProtocolError>(e),
        },
{
    let was_powered = module.get_base().powered;
    let cost = module.get_base().get_power();
    if !was_powered && plan.powered {
        // Module was powered on
        if !module.get_base().can_activate() || cost > state.power || cost > state.plan_power {
            return Err(ProtocolError::PowerMismatch);
        }
        module.get_base_mut().powered = true;
        state.remove_power(cost);
        module.on_activated(state);
    } else if was_powered && !plan.powered {
        // Module was powered off
        module.get_base_mut().powered = false;
        state.add_power(cost);
        module.on_deactivated(state);
    }
    // The plan is consumed
    module.get_base_mut().plan_powered = plan.powered;
    match module.vet_plan(context, plan) {
        Err(e) => Err(e),
        Ok(()) => {
            module.take_plan(context, plan);
            Ok(())
        },
    }
}

impl Ship {
    /// Writes the committed plan of every module, in slot order: whether the
    /// module runs, then what is particular to its kind.
    pub fn write_plans(&self, packet: &mut OutPacket)
        ensures
            final(packet)@ == old(packet)@ + self@.plan_bytes(),
    {
        let ghost plans = self@.plans();
        let mut i: usize = 0;
        proof {
            assert(plans.skip(0) =~= plans);
        }
        while i < self.modules.len()
            invariant
                i <= self.modules.len(),
                plans == self@.plans(),
                packet@ + plans_bytes(plans.skip(i as int)) == old(packet)@ + plans_bytes(plans),
            decreases self.modules.len() - i,
        {
            let ghost written = packet@;
            let module = &self.modules[i];

            // Write the base plans
            module.get_base().write_plans(packet);

            // Write the module plans
            module.write_plans(packet);
            proof {
                let left = plans.skip(i as int);
                assert(left[0] == self.modules@[i as int].plan());
                assert(left.skip(1) =~= plans.skip(i + 1));
                assert(packet@ + plans_bytes(plans.skip(i + 1)) =~= written + plans_bytes(left));
            }
            i = i + 1;
        }
        proof {
            assert(plans_bytes(plans.skip(i as int)) =~= Seq::<u8>::empty());
            assert(packet@ + Seq::<u8>::empty() =~= packet@);
        }
    }

    /// Tries to read the plan of every module, in slot order, and takes
    /// nothing over. A packet that could not be read is left as it was.
    pub fn parse_plans(&self, packet: &mut InPacket) -> (r: Result<Vec<ModulePlan>, ProtocolError>)
        ensures
            match plans_parsed(self@.modules, old(packet)@) {
                Ok((plans, rest)) => r matches Ok(read) && read@ == plans && final(packet)@
                    == rest,
                Err(e) => r matches Err(refused) && refused == e && final(packet)@ == old(packet)@,
            },
            final(packet).content() == old(packet).content(),
            final(packet).consumed() >= old(packet).consumed(),
    {
        let mark = packet.mark();
        let mut plans: Vec<ModulePlan> = Vec::new();
        let ghost whole = plans_parsed(self@.modules, old(packet)@);
        let mut i: usize = 0;
        proof {
            assert(self@.modules.skip(0) =~= self@.modules);
            if let Ok((left, _)) = whole {
                assert(plans@ + left =~= left);
            }
        }
        while i < self.modules.len()
            invariant
                i <= self.modules.len(),
                packet.content() == old(packet).content(),
                packet.consumed() >= old(packet).consumed(),
                mark == old(packet).consumed(),
                whole == plans_parsed(self@.modules, old(packet)@),
                whole == match plans_parsed(self@.modules.skip(i as int), packet@) {
                    Err(e) => Err::<(Seq<ModulePlan>, Seq<u8>), ProtocolError>(e),
                    Ok((left, rest)) => Ok((plans@ + left, rest)),
                },
            decreases self.modules.len() - i,
        {
            let module = &self.modules[i];
            proof {
                let left = self@.modules.skip(i as int);
                assert(left[0] == self@.modules[i as int]);
                assert(left.skip(1) =~= self@.modules.skip(i + 1));
            }
            let ghost before_plan = packet@;
            let powered = match module.get_base().parse_plans(packet) {
                Ok(powered) => powered,
                Err(e) => {
                    packet.reset(mark);
                    return Err(e);
                },
            };
            let target = match module.parse_plans(packet) {
                Ok(target) => target,
                Err(e) => {
                    packet.reset(mark);
                    return Err(e);
                },
            };
            let ghost read = plans@;
            let plan = ModulePlan { powered, target };
            plans.push(plan);
            proof {
                if let Ok((left, rest)) = plans_parsed(self@.modules.skip(i + 1), packet@) {
                    assert(read + (seq![plan] + left) =~= plans@ + left);
                }
            }
            i = i + 1;
        }
        proof {
            assert(plans@ + Seq::<ModulePlan>::empty() =~= plans@);
        }
        Ok(plans)
    }

    /// The ship after it has taken over `plans`, one for each module in slot
    /// order; or why it cannot.
    ///
    /// Every module is switched as its plan says, with the power moving
    /// between the module and both pools of the ship, and aims at what its
    /// plan says.
    pub(crate) fn with_plans(&self, context: &BattleContext, plans: &Vec<ModulePlan>) -> (r: Result<
        Ship,
        ProtocolError,
    >)
        requires
            self@.wf(),
            plans@.len() == self.modules@.len(),
        ensures
            match self@.with_plans(context@, plans@) {
                Ok(taken) => r matches Ok(ship) && ship@ == taken && ship@.wf() && ship@.id
                    == self@.id && ship@.client_id == self@.client_id && ship@.modules.len()
                    == self@.modules.len(),
                Err(e) => r matches Err(refused) && refused == e,
            },
    {
        let mut staged = self.snapshot();
        let ghost before = self@;
        let ghost whole = plans_received(before.state, before.modules, context@, plans@);
        let n = staged.modules.len();
        let mut i: usize = 0;
        proof {
            assert(before.modules.skip(0) =~= before.modules);
            assert(plans@.skip(0) =~= plans@);
            if let Ok((_, left)) = whole {
                assert(staged.modules@.take(0) + left =~= left);
            }
        }
        while i < n
            invariant
                i <= n,
                n == staged.modules.len(),
                n == before.modules.len(),
                n == plans@.len(),
                before == self@,
                before.wf(),
                staged.id == before.id,
                staged.client_id == before.client_id,
                whole == plans_received(before.state, before.modules, context@, plans@),
                whole == match plans_received(
                    staged.state,
                    before.modules.skip(i as int),
                    context@,
                    plans@.skip(i as int),
                ) {
                    Err(e) => Err::<(ShipState, Seq<Module>), ProtocolError>(e),
                    Ok((state, left)) => Ok((state, staged.modules@.take(i as int) + left)),
                },
                forall|j: int| i <= j < n ==> staged.modules@[j] == before.modules[j],
                forall|j: int|
                    0 <= j < n ==> (#[trigger] staged.modules@[j]).base().wf()
                        && staged.modules@[j].base().index == j,
                staged.state == (ShipState {
                    power: staged.state.power,
                    plan_power: staged.state.plan_power,
                    ..before.state
                }),
                staged.state.power + total_of(staged.modules@, Tally::Spent) == before.state.power
                    + total_of(before.modules, Tally::Spent),
                staged.state.plan_power + total_of(staged.modules@, Tally::Claimed) <= u8::MAX,
                total_of(staged.modules@, Tally::Health) == total_of(before.modules, Tally::Health),
            decreases n - i,
        {
            let ghost prev = staged@;
            proof {
                lemma_total_member(staged.modules@, i as int, Tally::Spent);
                lemma_total_member(staged.modules@, i as int, Tally::Claimed);
                let left = before.modules.skip(i as int);
                assert(left[0] == before.modules[i as int]);
                assert(left.skip(1) =~= before.modules.skip(i + 1));
                assert(plans@.skip(i as int)[0] == plans@[i as int]);
                assert(plans@.skip(i as int).skip(1) =~= plans@.skip(i + 1));
                assert(staged.modules@[i as int] == before.modules[i as int]);
                let step = plan_received(staged.state, left[0], context@, plans@[i as int]);
                let onward = plans_received(staged.state, left, context@, plans@.skip(i as int));
                assert(step matches Err(e) ==> onward == Err::<(ShipState, Seq<Module>), ProtocolError>(e));
                assert(step matches Err(e) ==> whole == Err::<(ShipState, Seq<Module>), ProtocolError>(e));
            }
            match receive_plan(&mut staged.state, &mut staged.modules[i], context, plans[i]) {
                Err(e) => {
                    return Err(e);
                },
                Ok(()) => {},
            }
            proof {
                let module = staged.modules@[i as int];
                assert(staged.modules@ =~= prev.modules.update(i as int, module));
                lemma_total_update(prev.modules, i as int, module, Tally::Spent);
                lemma_total_update(prev.modules, i as int, module, Tally::Health);
                lemma_total_update(prev.modules, i as int, module, Tally::Claimed);
                if let Ok((state, left)) = plans_received(
                    staged.state,
                    before.modules.skip(i + 1),
                    context@,
                    plans@.skip(i + 1),
                ) {
                    assert(prev.modules.take(i as int) + (seq![module] + left)
                        =~= staged.modules@.take(i + 1) + left);
                }
            }
            i = i + 1;
        }
        proof {
            assert(staged.modules@.take(n as int) + Seq::<Module>::empty() =~= staged.modules@);
        }
        Ok(staged)
    }

    /// Whether the ship can read its plans from the front of `packet` and
    /// take them over, and if not, why not: the first plan that cannot be read
    /// decides, and if all can be read, the first module in slot order that
    /// cannot take its plan. Neither the ship nor the packet is touched.
    pub fn check_plans(&self, context: &BattleContext, packet: &mut InPacket) -> (r: Result<
        (),
        ProtocolError,
    >)
        requires
            self@.wf(),
        ensures
            r == match self@.plans_read(context@, old(packet)@) {
                Ok(_) => Ok::<(), ProtocolError>(()),
                Err(e) => Err::<(), ProtocolError>(e),
            },
            final(packet)@ == old(packet)@,
            final(packet).content() == old(packet).content(),
            final(packet).consumed() == old(packet).consumed(),
    {
        let mark = packet.mark();
        let plans = match self.parse_plans(packet) {
            Ok(plans) => plans,
            Err(e) => {
                packet.reset(mark);
                return Err(e);
            },
        };
        packet.reset(mark);
        proof {
            lemma_plans_parsed_len(self@.modules, old(packet)@);
        }
        match self.with_plans(context, &plans) {
            Ok(_) => Ok(()),
            Err(e) => Err(e),
        }
    }

    /// Reads the plan of every module and takes the plans over: every module
    /// then runs or not as its plan says, with the power moving between the
    /// module and both pools of the ship, and aims at what its plan says.
    ///
    /// The packet must hold a plan for every module, the battle must have what
    /// the plans aim at, and the ship must be able to follow them:
    /// `check_plans` tells.
    pub fn read_plans(&mut self, context: &BattleContext, packet: &mut InPacket)
        requires
            old(self)@.wf(),
            old(self)@.plans_read(context@, old(packet)@) is Ok,
        ensures
            old(self)@.plans_read(context@, old(packet)@) == Ok::<
                (ShipView, Seq<u8>),
                ProtocolError,
            >((final(self)@, final(packet)@)),
            // the ship runs and aims as the plans in the packet say
            plans_parsed(old(self)@.modules, old(packet)@) == Ok::<
                (Seq<ModulePlan>, Seq<u8>),
                ProtocolError,
            >((final(self)@.plans(), final(packet)@)),
            final(self)@.wf(),
            final(self)@.id == old(self)@.id,
            final(self)@.client_id == old(self)@.client_id,
            final(self)@.modules.len() == old(self)@.modules.len(),
            final(packet).content() == old(packet).content(),
            final(packet).consumed() >= old(packet).consumed(),
    {
        let plans = self.parse_plans(packet).unwrap();
        proof {
            lemma_plans_parsed_len(self@.modules, old(packet)@);
            lemma_plans_taken(self@.state, self@.modules, context@, plans@);
        }
        let staged = self.with_plans(context, &plans).unwrap();
        proof {
            assert(staged@.plans() =~= plans@);
        }
        *self = staged;
    }
}

} // verus!
