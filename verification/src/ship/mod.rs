//! Ships: an ordered set of modules and the state they share.

pub mod plans;

use vstd::prelude::*;
use crate::module::{
    lemma_spent_within_claimed, lemma_total_member, lemma_total_prefix, lemma_total_push,
    lemma_total_same_bases, lemma_total_update, lesser, total_of, Module, ModuleBase,
    ModulePlan, Tally,
};
use crate::net::{ClientId, InPacket, OutPacket};
use crate::sim::{ModuleRef, SimEvents, SimEventsView};

verus! {

/// Identifies a ship within a battle.
pub type ShipId = u64;

/// What a ship's modules share: its health, its power and its shields.
#[derive(Clone, Copy, Debug, PartialEq, Eq, Structural)]
pub struct ShipState {
    /// Health of the ship: half the health of its modules, rounded down.
    pub hp: u8,
    /// Sum of the health of the ship's modules.
    pub total_module_hp: u8,
    /// Power that no module draws.
    pub power: u8,
    /// Power that no module would draw if the current plan were committed.
    pub plan_power: u8,
    /// Thrust of the running engines.
    pub thrust: u8,
    /// Damage that the shields can still absorb.
    pub shields: u8,
    /// Damage that the shields can absorb when they are full.
    pub max_shields: u8,
}

impl ShipState {
    /// The ship's health is half the health of its modules, rounded down.
    pub open spec fn wf(self) -> bool {
        self.hp == self.total_module_hp / 2
    }

    /// The state of a ship without modules.
    pub fn new() -> (state: ShipState)
        ensures
            state == (ShipState {
                hp: 0,
                total_module_hp: 0,
                power: 0,
                plan_power: 0,
                thrust: 0,
                shields: 0,
                max_shields: 0,
            }),
            state.wf(),
    {
        ShipState {
            hp: 0,
            total_module_hp: 0,
            power: 0,
            plan_power: 0,
            thrust: 0,
            shields: 0,
            max_shields: 0,
        }
    }

    /// Empties the shields before a simulation.
    pub fn pre_before_simulation(&mut self)
        ensures
            *final(self) == (ShipState { shields: 0, ..*old(self) }),
    {
        self.shields = 0;
    }

    /// The state with `power` more in both pools.
    pub open spec fn with_power_added(self, power: u8) -> ShipState {
        ShipState {
            power: (self.power + power) as u8,
            plan_power: (self.plan_power + power) as u8,
            ..self
        }
    }

    /// The state with `power` less in both pools.
    pub open spec fn with_power_removed(self, power: u8) -> ShipState {
        ShipState {
            power: (self.power - power) as u8,
            plan_power: (self.plan_power - power) as u8,
            ..self
        }
    }

    /// Whether a hit of `damage` on `module` switches the module off: the
    /// shields are down, the module runs, and the hit takes its health below
    /// what it needs to run.
    pub open spec fn shuts_down(self, module: Module, damage: u8) -> bool {
        let base = module.base();
        &&& self.shields == 0
        &&& base.is_active()
        &&& !base.damaged(lesser(self.total_module_hp, damage)).is_active()
    }

    /// The ship's state and the module after a hit of `damage` on `module`.
    ///
    /// No more damage is dealt than the ship's modules have health. Shields
    /// that hold anything absorb what they can of it and the module is spared.
    /// Otherwise the module absorbs what it can, the ship's health follows,
    /// and a running module that is left too weak to run is switched off and
    /// gives its power back.
    pub open spec fn after_damage(self, module: Module, damage: u8) -> (ShipState, Module) {
        let damage = lesser(self.total_module_hp, damage);
        if self.shields > 0 {
            (ShipState { shields: (self.shields - lesser(self.shields, damage)) as u8, ..self }, module)
        } else {
            let base = module.base();
            let hit = base.damaged(damage);
            let total = (self.total_module_hp - lesser(base.hp, damage)) as u8;
            let state = ShipState { total_module_hp: total, hp: total / 2, ..self };
            if base.is_active() && !hit.is_active() {
                (
                    state.with_power_added(base.power),
                    module.with_base(ModuleBase { powered: false, ..hit }),
                )
            } else {
                (state, module.with_base(hit))
            }
        }
    }

    /// Deals `damage` to `module`, which belongs to this ship. Where the hit
    /// switches the module off, the pools must be able to take its power back.
    pub fn deal_damage(&mut self, module: &mut Module, damage: u8)
        requires
            old(self).shuts_down(*old(module), damage) ==> old(self).power + old(
                module,
            ).base().power <= u8::MAX,
            old(self).shuts_down(*old(module), damage) ==> old(self).plan_power + old(
                module,
            ).base().power <= u8::MAX,
        ensures
            (*final(self), *final(module)) == old(self).after_damage(*old(module), damage),
            // the modules never lose more health than they have or than was dealt
            final(self).total_module_hp <= old(self).total_module_hp,
            old(self).total_module_hp - final(self).total_module_hp <= damage,
            old(self).total_module_hp - final(self).total_module_hp == old(module).base().hp
                - final(module).base().hp,
            // shields that hold anything take the hit in the module's place
            old(self).shields > 0 ==> *final(module) == *old(module),
            old(self).shields > 0 ==> final(self).total_module_hp == old(self).total_module_hp,
            old(self).shields > 0 ==> final(self).shields == old(self).shields - lesser(
                old(self).shields,
                lesser(old(self).total_module_hp, damage),
            ),
            old(self).shields > 0 && damage <= old(self).total_module_hp ==> final(self).shields
                == old(self).shields - lesser(old(self).shields, damage),
            // the ship's health follows the health of its modules
            old(self).wf() ==> final(self).wf(),
            // a module that is left too weak to run gives its power back, once
            old(self).shuts_down(*old(module), damage) ==> !final(module).base().powered,
            old(self).shuts_down(*old(module), damage) ==> final(self).power == old(self).power
                + old(module).base().power,
            old(self).shuts_down(*old(module), damage) ==> final(self).plan_power == old(
                self,
            ).plan_power + old(module).base().power,
            !old(self).shuts_down(*old(module), damage) ==> final(module).base().powered == old(
                module,
            ).base().powered,
            !old(self).shuts_down(*old(module), damage) ==> final(self).power == old(self).power,
            !old(self).shuts_down(*old(module), damage) ==> final(self).plan_power == old(
                self,
            ).plan_power,
    {
        // Can't deal more damage than there is health
        let damage: u8 = if self.total_module_hp < damage {
            self.total_module_hp
        } else {
            damage
        };

        let was_active = module.get_base().is_active();

        if self.shields > 0 {
            let absorbed: u8 = if self.shields < damage {
                self.shields
            } else {
                damage
            };
            self.shields = self.shields - absorbed;
        } else {
            let dealt = module.get_base_mut().deal_damage(damage);

            self.total_module_hp = self.total_module_hp - dealt;
            self.hp = self.total_module_hp / 2;

            // A module that ran and no longer can is switched off
            if was_active && !module.get_base().is_active() {
                self.add_power(module.get_base().get_power());
                module.get_base_mut().powered = false;
                module.on_deactivated(self);
            }
        }
    }

    /// Puts `power` into both pools.
    pub fn add_power(&mut self, power: u8)
        requires
            old(self).power + power <= u8::MAX,
            old(self).plan_power + power <= u8::MAX,
        ensures
            *final(self) == old(self).with_power_added(power),
            final(self).power == old(self).power + power,
            final(self).plan_power == old(self).plan_power + power,
    {
        self.power = self.power + power;
        self.plan_power = self.plan_power + power;
    }

    /// Takes `power` out of both pools.
    pub fn remove_power(&mut self, power: u8)
        requires
            power <= old(self).power,
            power <= old(self).plan_power,
        ensures
            *final(self) == old(self).with_power_removed(power),
            final(self).power == old(self).power - power,
            final(self).plan_power == old(self).plan_power - power,
    {
        self.power = self.power - power;
        self.plan_power = self.plan_power - power;
    }

    /// Raises what the full shields can absorb.
    pub fn add_shields(&mut self, shields: u8)
        requires
            old(self).max_shields + shields <= u8::MAX,
        ensures
            *final(self) == (ShipState {
                max_shields: (old(self).max_shields + shields) as u8,
                ..*old(self)
            }),
    {
        self.max_shields = self.max_shields + shields;
    }

    /// Lowers what the full shields can absorb, and the shields with it where
    /// they hold more than that.
    pub fn remove_shields(&mut self, shields: u8)
        requires
            shields <= old(self).max_shields,
        ensures
            *final(self) == (ShipState {
                max_shields: (old(self).max_shields - shields) as u8,
                shields: lesser(old(self).shields, (old(self).max_shields - shields) as u8),
                ..*old(self)
            }),
    {
        self.max_shields = self.max_shields - shields;
        if self.max_shields < self.shields {
            self.shields = self.max_shields;
        }
    }

    /// Health of the ship.
    pub fn get_hp(&self) -> (hp: u8)
        ensures
            hp == self.hp,
    {
        self.hp
    }
}

/// A ship: its identity, the state its modules share, and the modules in slot
/// order.
#[derive(Clone, Debug, PartialEq, Eq)]
pub struct Ship {
    /// Identifies the ship within the battle.
    pub id: ShipId,
    /// The participant who controls the ship, if any.
    pub client_id: Option<ClientId>,
    /// What the modules share.
    pub state: ShipState,
    /// The modules; the position of each is its slot.
    pub modules: Vec<Module>,
}

/// A ship as a value.
pub struct ShipView {
    /// Identifies the ship within the battle.
    pub id: ShipId,
    /// The participant who controls the ship, if any.
    pub client_id: Option<ClientId>,
    /// What the modules share.
    pub state: ShipState,
    /// The modules; the position of each is its slot.
    pub modules: Seq<Module>,
}

impl View for Ship {
    type V = ShipView;

    open spec fn view(&self) -> ShipView {
        ShipView { id: self.id, client_id: self.client_id, state: self.state, modules: self.modules@ }
    }
}

/// The ship's state and a module after the module's plan has been committed.
///
/// A module that is to be switched on is switched on if it is healthy enough
/// and the ship has the power it draws, which is then taken from the ship;
/// otherwise it stays off. A module that is to be switched off is switched off
/// and gives its power back. Either way the module then plans to be what it is.
pub open spec fn plan_step(state: ShipState, module: Module) -> (ShipState, Module) {
    let base = module.base();
    if base.plan_powered == base.powered {
        (state, module)
    } else if base.powered {
        (
            ShipState { power: (state.power + base.power) as u8, ..state },
            module.with_base(ModuleBase { powered: false, plan_powered: false, ..base }),
        )
    } else if base.can_activate() && state.power >= base.power {
        (
            ShipState { power: (state.power - base.power) as u8, ..state },
            module.with_base(ModuleBase { powered: true, plan_powered: true, ..base }),
        )
    } else {
        (state, module.with_base(ModuleBase { plan_powered: false, ..base }))
    }
}

impl ShipView {
    /// Sum of the health of the modules.
    pub open spec fn hp_total(self) -> nat {
        total_of(self.modules, Tally::Health)
    }

    /// Power that the running modules draw.
    pub open spec fn power_spent(self) -> nat {
        total_of(self.modules, Tally::Spent)
    }

    /// Power drawn by the modules that run or that are planned to run and
    /// healthy enough for it.
    pub open spec fn power_claimed(self) -> nat {
        total_of(self.modules, Tally::Claimed)
    }

    /// All the power of the ship: what is free and what the running modules
    /// draw.
    pub open spec fn power_budget(self) -> nat {
        self.state.power as nat + self.power_spent()
    }

    /// The invariant of a ship.
    ///
    /// The slots can be numbered, every module is well-formed and knows its
    /// slot, the state holds the modules' total health and half of it as the
    /// ship's, the pool can take back what the running modules draw, and the
    /// planned pool what the modules draw that run or may yet be switched on.
    pub open spec fn wf(self) -> bool {
        &&& self.state.wf()
        &&& self.modules.len() <= u32::MAX
        &&& forall|i: int|
            0 <= i < self.modules.len() ==> (#[trigger] self.modules[i]).base().wf()
                && self.modules[i].base().index == i
        &&& self.state.total_module_hp == self.hp_total()
        &&& self.state.power + self.power_spent() <= u8::MAX
        &&& self.state.plan_power + self.power_claimed() <= u8::MAX
    }

    /// Whether every module plans to be what it is.
    pub open spec fn committed(self) -> bool {
        forall|i: int|
            0 <= i < self.modules.len() ==> (#[trigger] self.modules[i]).base().plan_powered
                == self.modules[i].base().powered
    }

    /// The module as it is stored when it is added: with its slot set.
    pub open spec fn seated(self, module: Module) -> Module {
        module.with_base(ModuleBase { index: self.modules.len() as u32, ..module.base() })
    }

    /// Whether the ship can take `module` as its next module: there is a slot
    /// number left, the module is well-formed, the total health still fits,
    /// and so does the power that the module draws or may yet draw.
    pub open spec fn accepts(self, module: Module) -> bool {
        let base = module.base();
        &&& self.modules.len() < u32::MAX
        &&& base.wf()
        &&& self.state.total_module_hp + base.hp <= u8::MAX
        &&& self.state.power + self.power_spent() + module.weight(Tally::Spent) <= u8::MAX
        &&& self.state.plan_power + self.power_claimed() + module.weight(Tally::Claimed)
            <= u8::MAX
    }

    /// Whether the module in `slot` can be planned to run or not to run: the
    /// ship has the slot, and the planned pool could still take back what its
    /// modules would then draw or might yet draw.
    pub open spec fn can_plan(self, slot: int, powered: bool) -> bool {
        &&& 0 <= slot < self.modules.len()
        &&& self.state.plan_power + self.with_plan(slot, powered).power_claimed() <= u8::MAX
    }

    /// The ship with the module in `slot` aimed at `target`.
    pub open spec fn with_aim(self, slot: int, target: Option<(ShipId, u32)>) -> ShipView {
        ShipView {
            modules: self.modules.update(
                slot,
                self.modules[slot].with_payload(ModulePlan { powered: false, target }),
            ),
            ..self
        }
    }

    /// The ship with the module in `slot` planned to run or not to run.
    pub open spec fn with_plan(self, slot: int, powered: bool) -> ShipView {
        let module = self.modules[slot];
        ShipView {
            modules: self.modules.update(
                slot,
                module.with_base(ModuleBase { plan_powered: powered, ..module.base() }),
            ),
            ..self
        }
    }

    /// The ship with `module` added in the next slot.
    pub open spec fn with_module(self, module: Module) -> ShipView {
        let total = (self.state.total_module_hp + module.base().hp) as u8;
        ShipView {
            state: ShipState { total_module_hp: total, hp: total / 2, ..self.state },
            modules: self.modules.push(self.seated(module)),
            ..self
        }
    }

    /// The ship after a hit of `damage` on the module in `slot`.
    pub open spec fn damaged(self, slot: int, damage: u8) -> ShipView {
        let (state, module) = self.state.after_damage(self.modules[slot], damage);
        ShipView { state, modules: self.modules.update(slot, module), ..self }
    }

    /// The ship after the plan of every module has been committed, in slot
    /// order.
    pub open spec fn plans_applied(self) -> ShipView
        decreases self.modules.len(),
    {
        if self.modules.len() == 0 {
            self
        } else {
            let before = ShipView { modules: self.modules.drop_last(), ..self }.plans_applied();
            let (state, module) = plan_step(before.state, self.modules.last());
            ShipView { state, modules: before.modules.push(module), ..self }
        }
    }

    /// The ship with every module set up for the simulation of the round.
    pub open spec fn launched(self) -> ShipView {
        ShipView {
            modules: Seq::new(self.modules.len(), |i: int| self.modules[i].launched()),
            ..self
        }
    }

    /// The ship with the bookkeeping of every module reset for the round.
    pub open spec fn preprocessed(self) -> ShipView {
        ShipView {
            modules: Seq::new(self.modules.len(), |i: int| self.modules[i].preprocessed()),
            ..self
        }
    }
}

/// The schedule after each of `modules`, which make up the ship `ship`, has
/// scheduled what it does in the round, in slot order.
pub open spec fn volley(modules: Seq<Module>, ship: ShipId, events: SimEventsView) -> SimEventsView
    decreases modules.len(),
{
    if modules.len() == 0 {
        events
    } else {
        volley(modules.drop_last(), ship, events).with_impact(
            ModuleRef { ship, slot: (modules.len() - 1) as u32 },
            modules.last().impact(),
        )
    }
}

/// Scheduling moves no clock: the ticks that have been applied stay applied.
pub proof fn lemma_volley_keeps_clock(modules: Seq<Module>, ship: ShipId, events: SimEventsView)
    ensures
        volley(modules, ship, events).last_applied == events.last_applied,
    decreases modules.len(),
{
    if modules.len() > 0 {
        lemma_volley_keeps_clock(modules.drop_last(), ship, events);
    }
}

/// A module that a hit has switched off is not switched off again: its power
/// comes back to the ship once.
pub proof fn lemma_shut_down_once(state: ShipState, module: Module, first: u8, second: u8)
    requires
        state.shuts_down(module, first),
    ensures
        ({
            let (hit_state, hit_module) = state.after_damage(module, first);
            &&& !hit_module.base().powered
            &&& !hit_state.shuts_down(hit_module, second)
            &&& hit_state.after_damage(hit_module, second).0.power == hit_state.power
            &&& !hit_state.after_damage(hit_module, second).1.base().powered
        }),
{
}

/// A hit leaves a well-formed ship well-formed: above all, its health is
/// still half the health of its modules. The modules lose no more health than
/// they have and no more than was dealt, and all the power of the ship is
/// still there.
pub proof fn lemma_damage_keeps_wf(ship: ShipView, slot: int, damage: u8)
    requires
        ship.wf(),
        0 <= slot < ship.modules.len(),
    ensures
        ship.damaged(slot, damage).wf(),
        ship.damaged(slot, damage).state.hp == ship.damaged(slot, damage).hp_total() / 2,
        ship.damaged(slot, damage).hp_total() <= ship.hp_total(),
        ship.hp_total() - ship.damaged(slot, damage).hp_total() <= damage,
        ship.damaged(slot, damage).power_budget() == ship.power_budget(),
        ship.damaged(slot, damage).id == ship.id,
        ship.damaged(slot, damage).client_id == ship.client_id,
        ship.damaged(slot, damage).modules.len() == ship.modules.len(),
{
    let module = ship.damaged(slot, damage).modules[slot];
    lemma_total_member(ship.modules, slot, Tally::Health);
    lemma_total_member(ship.modules, slot, Tally::Spent);
    lemma_total_member(ship.modules, slot, Tally::Claimed);
    lemma_total_update(ship.modules, slot, module, Tally::Health);
    lemma_total_update(ship.modules, slot, module, Tally::Spent);
    lemma_total_update(ship.modules, slot, module, Tally::Claimed);
}

/// What committing the plans of a ship changes and what it keeps, for a ship
/// whose pool can take back what its running modules draw.
pub proof fn lemma_plans_applied(ship: ShipView)
    requires
        ship.state.power + total_of(ship.modules, Tally::Spent) <= u8::MAX,
    ensures
        ({
            let after = ship.plans_applied();
            &&& after.id == ship.id
            &&& after.client_id == ship.client_id
            &&& after.modules.len() == ship.modules.len()
            &&& after.state == (ShipState { power: after.state.power, ..ship.state })
            &&& after.state.power + total_of(after.modules, Tally::Spent) == ship.state.power
                + total_of(ship.modules, Tally::Spent)
            &&& total_of(after.modules, Tally::Claimed) <= total_of(ship.modules, Tally::Claimed)
            &&& total_of(after.modules, Tally::Health) == total_of(ship.modules, Tally::Health)
            &&& forall|i: int|
                0 <= i < ship.modules.len() ==> {
                    let (was, is) = (ship.modules[i].base(), (#[trigger] after.modules[i]).base());
                    &&& is == (ModuleBase { powered: is.powered, plan_powered: is.powered, ..was })
                    &&& was.wf() ==> is.wf()
                }
        }),
    decreases ship.modules.len(),
{
    if ship.modules.len() > 0 {
        let front = ShipView { modules: ship.modules.drop_last(), ..ship };
        let last = ship.modules.last();
        lemma_plans_applied(front);
        let before = front.plans_applied();
        let (state, module) = plan_step(before.state, last);
        let after = ship.plans_applied();
        lemma_total_push(before.modules, module, Tally::Spent);
        lemma_total_push(before.modules, module, Tally::Claimed);
        lemma_total_push(before.modules, module, Tally::Health);
        assert forall|i: int| 0 <= i < ship.modules.len() implies {
            let (was, is) = (ship.modules[i].base(), (#[trigger] after.modules[i]).base());
            &&& is == (ModuleBase { powered: is.powered, plan_powered: is.powered, ..was })
            &&& was.wf() ==> is.wf()
        } by {
            if i < ship.modules.len() - 1 {
                assert(after.modules[i] == before.modules[i]);
                assert(ship.modules[i] == front.modules[i]);
            }
        }
    }
}

/// The ship's state and its modules after the plan of every module has been
/// committed, first slot first.
pub open spec fn plans_committed(state: ShipState, modules: Seq<Module>) -> (
    ShipState,
    Seq<Module>,
)
    decreases modules.len(),
{
    if modules.len() == 0 {
        (state, Seq::empty())
    } else {
        let (state, first) = plan_step(state, modules[0]);
        let (state, others) = plans_committed(state, modules.skip(1));
        (state, seq![first] + others)
    }
}

/// Committing first slot first comes to committing all but the last slot and
/// then the last.
pub proof fn lemma_committed_last(state: ShipState, modules: Seq<Module>)
    requires
        modules.len() > 0,
    ensures
        plans_committed(state, modules) == ({
            let (before, front) = plans_committed(state, modules.drop_last());
            let (after, last) = plan_step(before, modules.last());
            (after, front.push(last))
        }),
    decreases modules.len(),
{
    let (next, first) = plan_step(state, modules[0]);
    let others = modules.skip(1);
    if modules.len() == 1 {
        assert(modules.drop_last() =~= Seq::<Module>::empty());
        assert(others =~= Seq::<Module>::empty());
        assert(plans_committed(next, others) == (next, Seq::<Module>::empty()));
        assert(plans_committed(state, modules.drop_last()) == (state, Seq::<Module>::empty()));
        assert(modules.last() == modules[0]);
        assert(seq![first] + Seq::<Module>::empty() =~= Seq::<Module>::empty().push(first));
    } else {
        lemma_committed_last(next, others);
        assert(others.drop_last() =~= modules.drop_last().skip(1));
        assert(others.last() == modules.last());
        assert(modules.drop_last()[0] == modules[0]);
        let (before, front) = plans_committed(next, others.drop_last());
        let (after, last) = plan_step(before, modules.last());
        assert(plans_committed(next, others) == (after, front.push(last)));
        assert(plans_committed(state, modules.drop_last()) == (before, seq![first] + front));
        assert(seq![first] + front.push(last) =~= (seq![first] + front).push(last));
    }
}

/// `plans_applied` commits first slot first.
pub proof fn lemma_plans_applied_in_order(ship: ShipView)
    ensures
        ship.plans_applied() == (ShipView {
            state: plans_committed(ship.state, ship.modules).0,
            modules: plans_committed(ship.state, ship.modules).1,
            ..ship
        }),
    decreases ship.modules.len(),
{
    if ship.modules.len() == 0 {
        assert(ship.modules =~= Seq::<Module>::empty());
    } else {
        lemma_plans_applied_in_order(ShipView { modules: ship.modules.drop_last(), ..ship });
        lemma_committed_last(ship.state, ship.modules);
    }
}

/// Committing plans neither makes nor loses power: what is free and what the
/// running modules draw add up to what they did, so the running modules never
/// draw more than the ship has. The ship stays well-formed, and every module
/// then plans to be what it is.
pub proof fn lemma_plans_conserve_power(ship: ShipView)
    requires
        ship.wf(),
    ensures
        ship.plans_applied().wf(),
        ship.plans_applied().committed(),
        ship.plans_applied().power_budget() == ship.power_budget(),
        ship.plans_applied().power_spent() <= ship.power_budget(),
{
    lemma_plans_applied(ship);
    let after = ship.plans_applied();
    assert forall|i: int| 0 <= i < after.modules.len() implies (#[trigger] after.modules[i]).base().wf()
        && after.modules[i].base().index == i by {
        assert(ship.modules[i].base().wf());
    }
}

/// Commits the plan of one module.
fn commit_plan(state: &mut ShipState, module: &mut Module)
    requires
        old(module).base().powered && !old(module).base().plan_powered ==> old(state).power
            + old(module).base().power <= u8::MAX,
    ensures
        (*final(state), *final(module)) == plan_step(*old(state), *old(module)),
{
    let powered = module.get_base().powered;
    if module.get_base().plan_powered != powered {
        let cost = module.get_base().get_power();
        if !powered {
            if module.get_base().can_activate() && state.power >= cost {
                module.get_base_mut().powered = true;
                state.power = state.power - cost;
                module.on_activated(state);
            }
        } else {
            module.get_base_mut().powered = false;
            state.power = state.power + cost;
            module.on_deactivated(state);
        }
        let now_powered = module.get_base().powered;
        module.get_base_mut().plan_powered = now_powered;
    }
}

impl Ship {
    /// A ship without modules and without a participant.
    pub fn new(id: ShipId) -> (ship: Ship)
        ensures
            ship@ == (ShipView {
                id,
                client_id: None,
                state: ShipState {
                    hp: 0,
                    total_module_hp: 0,
                    power: 0,
                    plan_power: 0,
                    thrust: 0,
                    shields: 0,
                    max_shields: 0,
                },
                modules: Seq::empty(),
            }),
            ship@.wf(),
    {
        Ship { id, client_id: None, state: ShipState::new(), modules: Vec::new() }
    }

    /// A copy of the ship.
    pub fn snapshot(&self) -> (copy: Ship)
        ensures
            copy@ == self@,
    {
        let mut modules: Vec<Module> = Vec::new();
        let mut i: usize = 0;
        while i < self.modules.len()
            invariant
                i <= self.modules.len(),
                modules@ == self.modules@.take(i as int),
            decreases self.modules.len() - i,
        {
            modules.push(self.modules[i]);
            assert(modules@ =~= self.modules@.take(i + 1));
            i = i + 1;
        }
        assert(modules@ =~= self.modules@);
        Ship { id: self.id, client_id: self.client_id, state: self.state, modules }
    }

    /// The sum of a tally over the ship's modules, if it is no more than what
    /// a pool can hold.
    fn checked_tally(&self, tally: Tally) -> (total: Option<u8>)
        ensures
            match total {
                Some(total) => total == total_of(self@.modules, tally),
                None => total_of(self@.modules, tally) > u8::MAX,
            },
    {
        let mut total: u8 = 0;
        let mut i: usize = 0;
        while i < self.modules.len()
            invariant
                i <= self.modules.len(),
                total == total_of(self.modules@.take(i as int), tally),
            decreases self.modules.len() - i,
        {
            proof {
                assert(self.modules@.take(i + 1).drop_last() =~= self.modules@.take(i as int));
                lemma_total_prefix(self.modules@, i + 1, tally);
            }
            let weight = self.modules[i].weigh(tally);
            if weight > u8::MAX - total {
                return None;
            }
            total = total + weight;
            i = i + 1;
        }
        proof {
            assert(self.modules@.take(i as int) =~= self.modules@);
        }
        Some(total)
    }

    /// Whether the ship is well-formed.
    pub fn is_valid(&self) -> (valid: bool)
        ensures
            valid == self@.wf(),
    {
        if self.state.hp != self.state.total_module_hp / 2 {
            return false;
        }
        if self.modules.len() > u32::MAX as usize {
            return false;
        }
        let mut i: usize = 0;
        while i < self.modules.len()
            invariant
                i <= self.modules.len(),
                self.modules.len() <= u32::MAX,
                forall|j: int|
                    0 <= j < i ==> (#[trigger] self.modules@[j]).base().wf()
                        && self.modules@[j].base().index == j,
            decreases self.modules.len() - i,
        {
            let base = self.modules[i].get_base();
            if base.hp > base.max_hp || (base.powered && base.hp < base.min_hp) || base.index
                != i as u32 {
                return false;
            }
            i = i + 1;
        }
        let health = match self.checked_tally(Tally::Health) {
            Some(health) => health,
            None => {
                return false;
            },
        };
        let spent = match self.checked_tally(Tally::Spent) {
            Some(spent) => spent,
            None => {
                return false;
            },
        };
        let claimed = match self.checked_tally(Tally::Claimed) {
            Some(claimed) => claimed,
            None => {
                return false;
            },
        };
        health == self.state.total_module_hp && spent <= u8::MAX - self.state.power && claimed
            <= u8::MAX - self.state.plan_power
    }

    /// The sum of a tally over the ship's modules.
    pub fn tally(&self, tally: Tally) -> (total: u8)
        requires
            self@.wf(),
        ensures
            total == total_of(self@.modules, tally),
    {
        proof {
            lemma_spent_within_claimed(self@.modules);
        }
        let mut total: u8 = 0;
        let mut i: usize = 0;
        while i < self.modules.len()
            invariant
                i <= self.modules.len(),
                total == total_of(self.modules@.take(i as int), tally),
                total_of(self.modules@, tally) <= u8::MAX,
            decreases self.modules.len() - i,
        {
            proof {
                assert(self.modules@.take(i + 1).drop_last() =~= self.modules@.take(i as int));
                lemma_total_prefix(self.modules@, i + 1, tally);
            }
            total = total + self.modules[i].weigh(tally);
            i = i + 1;
        }
        proof {
            assert(self.modules@.take(i as int) =~= self.modules@);
        }
        total
    }

    /// Adds `module` in the next slot and tells whether it did. A ship that
    /// cannot take the module is left as it was.
    ///
    /// A module that is added running stays so: it is told that it has been
    /// switched on, and the power it draws counts as spent from then on.
    pub fn add_module(&mut self, module: Module) -> (added: bool)
        requires
            old(self)@.wf(),
        ensures
            added == old(self)@.accepts(module),
            final(self)@ == if added {
                old(self)@.with_module(module)
            } else {
                old(self)@
            },
            final(self)@.wf(),
    {
        let mut module = module;
        let base = *module.get_base();
        if self.modules.len() >= u32::MAX as usize {
            return false;
        }
        if base.hp > base.max_hp || (base.powered && base.hp < base.min_hp) {
            return false;
        }
        if base.hp > u8::MAX - self.state.total_module_hp {
            return false;
        }
        let spent = self.tally(Tally::Spent) as u16 + module.weigh(Tally::Spent) as u16;
        let claimed = self.tally(Tally::Claimed) as u16 + module.weigh(Tally::Claimed) as u16;
        if self.state.power as u16 + spent > u8::MAX as u16 || self.state.plan_power as u16
            + claimed > u8::MAX as u16 {
            return false;
        }
        // Add to state hp

        self.state.total_module_hp = self.state.total_module_hp + base.hp;
        self.state.hp = self.state.total_module_hp / 2;

        // Setup module's index
        module.get_base_mut().index = self.modules.len() as u32;

        // Activate module if can
        if module.get_base().is_active() {
            module.on_activated(&mut self.state);
        }
        proof {
            lemma_total_push(old(self).modules@, module, Tally::Health);
            lemma_total_push(old(self).modules@, module, Tally::Spent);
            lemma_total_push(old(self).modules@, module, Tally::Claimed);
        }

        // Add the module
        self.modules.push(module);
        true
    }

    /// Deals `damage` to the module in `slot`.
    pub fn damage_module(&mut self, slot: u32, damage: u8)
        requires
            old(self)@.wf(),
            slot < old(self).modules.len(),
        ensures
            final(self)@ == old(self)@.damaged(slot as int, damage),
            final(self)@.wf(),
            final(self)@.power_budget() == old(self)@.power_budget(),
    {
        proof {
            lemma_total_member(self.modules@, slot as int, Tally::Health);
            lemma_total_member(self.modules@, slot as int, Tally::Spent);
            lemma_total_member(self.modules@, slot as int, Tally::Claimed);
        }
        self.state.deal_damage(&mut self.modules[slot as usize], damage);
        proof {
            let module = self.modules@[slot as int];
            lemma_total_update(old(self).modules@, slot as int, module, Tally::Health);
            lemma_total_update(old(self).modules@, slot as int, module, Tally::Spent);
            lemma_total_update(old(self).modules@, slot as int, module, Tally::Claimed);
            assert(self.modules@ =~= old(self).modules@.update(slot as int, module));
        }
    }

    /// Resets the bookkeeping of every module for the round. Only the server
    /// does so, once per round and before planning.
    pub fn server_preprocess(&mut self)
        requires
            old(self)@.wf(),
        ensures
            final(self)@ == old(self)@.preprocessed(),
            final(self)@.wf(),
    {
        let ghost before = self@;
        let n = self.modules.len();
        let mut i: usize = 0;
        while i < n
            invariant
                i <= n,
                n == self.modules.len(),
                n == before.modules.len(),
                self.id == before.id,
                self.client_id == before.client_id,
                self.state == before.state,
                forall|j: int| 0 <= j < i ==> self.modules@[j] == before.modules[j].preprocessed(),
                forall|j: int| i <= j < n ==> self.modules@[j] == before.modules[j],
            decreases n - i,
        {
            self.modules[i].server_preprocess(&mut self.state);
            i = i + 1;
        }
        proof {
            assert(self.modules@ =~= before.preprocessed().modules);
            lemma_total_same_bases(self.modules@, before.modules, Tally::Health);
            lemma_total_same_bases(self.modules@, before.modules, Tally::Spent);
            lemma_total_same_bases(self.modules@, before.modules, Tally::Claimed);
        }
    }

    /// Sets every module up for the simulation of the round and lets each
    /// schedule what the committed plan makes it do, in slot order.
    pub fn before_simulation(&mut self, events: &mut SimEvents)
        requires
            old(self)@.wf(),
        ensures
            final(self)@ == old(self)@.launched(),
            final(self)@.wf(),
            final(events)@ == volley(old(self)@.modules, old(self).id, old(events)@),
    {
        let ghost before = self@;
        let n = self.modules.len();
        let mut i: usize = 0;
        while i < n
            invariant
                i <= n,
                n == self.modules.len(),
                n == before.modules.len(),
                n <= u32::MAX,
                self.id == before.id,
                self.client_id == before.client_id,
                self.state == before.state,
                forall|j: int| 0 <= j < i ==> self.modules@[j] == before.modules[j].launched(),
                forall|j: int| i <= j < n ==> self.modules@[j] == before.modules[j],
                events@ == volley(before.modules.take(i as int), before.id, old(events)@),
            decreases n - i,
        {
            proof {
                assert(before.modules.take(i + 1).drop_last() =~= before.modules.take(i as int));
            }
            let mut adder = events.create_adder(ModuleRef { ship: self.id, slot: i as u32 });
            self.modules[i].before_simulation(&mut self.state, &mut adder);
            i = i + 1;
        }
        proof {
            assert(before.modules.take(n as int) =~= before.modules);
            assert(self.modules@ =~= before.launched().modules);
            lemma_total_same_bases(self.modules@, before.modules, Tally::Health);
            lemma_total_same_bases(self.modules@, before.modules, Tally::Spent);
            lemma_total_same_bases(self.modules@, before.modules, Tally::Claimed);
        }
    }

    /// Tells every module that every tick of the round has been applied.
    pub fn after_simulation(&mut self)
        ensures
            final(self)@ == old(self)@,
    {
        let ghost before = self@;
        let n = self.modules.len();
        let mut i: usize = 0;
        while i < n
            invariant
                i <= n,
                n == self.modules.len(),
                self@ == before,
            decreases n - i,
        {
            self.modules[i].after_simulation(&mut self.state);
            proof {
                assert(self.modules@ =~= before.modules);
            }
            i = i + 1;
        }
    }

    /// Plans the module in `slot` to run or not to run, and tells whether it
    /// did. A ship that cannot take the plan is left as it was. The plan takes
    /// effect when the plans are committed.
    pub fn plan_module(&mut self, slot: u32, powered: bool) -> (planned: bool)
        requires
            old(self)@.wf(),
        ensures
            planned == old(self)@.can_plan(slot as int, powered),
            final(self)@ == if planned {
                old(self)@.with_plan(slot as int, powered)
            } else {
                old(self)@
            },
            final(self)@.wf(),
    {
        if slot as usize >= self.modules.len() {
            return false;
        }
        let mut module = self.modules[slot as usize];
        module.get_base_mut().plan_powered = powered;
        proof {
            lemma_total_member(self.modules@, slot as int, Tally::Claimed);
            lemma_total_update(self.modules@, slot as int, module, Tally::Claimed);
            lemma_total_update(self.modules@, slot as int, module, Tally::Spent);
            lemma_total_update(self.modules@, slot as int, module, Tally::Health);
        }
        let claimed = self.tally(Tally::Claimed) as u16 - self.modules[slot as usize].weigh(
            Tally::Claimed,
        ) as u16 + module.weigh(Tally::Claimed) as u16;
        if self.state.plan_power as u16 + claimed > u8::MAX as u16 {
            return false;
        }
        self.modules[slot as usize] = module;
        proof {
            assert(self.modules@ =~= old(self).modules@.update(slot as int, module));
        }
        true
    }

    /// Commits the plan of every module, in slot order: each module is
    /// switched on or off as `plan_step` says, with the power that the modules
    /// before it have left.
    pub fn apply_module_plans(&mut self)
        requires
            old(self)@.wf(),
        ensures
            final(self)@ == old(self)@.plans_applied(),
            final(self)@.wf(),
            final(self)@.id == old(self)@.id,
            final(self)@.client_id == old(self)@.client_id,
            final(self)@.modules.len() == old(self)@.modules.len(),
            final(self)@.committed(),
            final(self)@.power_budget() == old(self)@.power_budget(),
            final(self)@.power_spent() <= final(self)@.power_budget(),
    {
        let ghost before = self@;
        let n = self.modules.len();
        let mut i: usize = 0;
        while i < n
            invariant
                i <= n,
                n == self.modules.len(),
                n == before.modules.len(),
                before.wf(),
                self.id == before.id,
                self.client_id == before.client_id,
                (ShipView { modules: self.modules@.take(i as int), ..self@ }) == (ShipView {
                    modules: before.modules.take(i as int),
                    ..before
                }).plans_applied(),
                forall|j: int| i <= j < n ==> self.modules@[j] == before.modules[j],
                forall|j: int|
                    0 <= j < n ==> (#[trigger] self.modules@[j]).base().wf()
                        && self.modules@[j].base().index == j,
                forall|j: int|
                    0 <= j < i ==> (#[trigger] self.modules@[j]).base().plan_powered
                        == self.modules@[j].base().powered,
                self.state == (ShipState { power: self.state.power, ..before.state }),
                self.state.power + total_of(self.modules@, Tally::Spent) == before.state.power
                    + total_of(before.modules, Tally::Spent),
                total_of(self.modules@, Tally::Health) == total_of(before.modules, Tally::Health),
                self.state.plan_power + total_of(self.modules@, Tally::Claimed) <= u8::MAX,
            decreases n - i,
        {
            let ghost prev = self@;
            proof {
                lemma_total_member(self.modules@, i as int, Tally::Spent);
            }
            commit_plan(&mut self.state, &mut self.modules[i]);
            proof {
                let module = self.modules@[i as int];
                assert(self.modules@ =~= prev.modules.update(i as int, module));
                lemma_total_update(prev.modules, i as int, module, Tally::Spent);
                lemma_total_update(prev.modules, i as int, module, Tally::Health);
                lemma_total_update(prev.modules, i as int, module, Tally::Claimed);
                let prefix = before.modules.take(i + 1);
                assert(prefix.drop_last() =~= before.modules.take(i as int));
                assert(prefix.last() == before.modules[i as int]);
                assert(self.modules@.take(i + 1) =~= prev.modules.take(i as int).push(module));
            }
            i = i + 1;
        }
        proof {
            assert(self.modules@.take(n as int) =~= self.modules@);
            assert(before.modules.take(n as int) =~= before.modules);
            lemma_spent_within_claimed(self.modules@);
        }
    }

    /// Writes what the simulation decided about each module, in slot order.
    pub fn write_results(&self, packet: &mut OutPacket)
        ensures
            final(packet)@ == old(packet)@,
    {
        let mut i: usize = 0;
        while i < self.modules.len()
            invariant
                i <= self.modules.len(),
                packet@ == old(packet)@,
            decreases self.modules.len() - i,
        {
            self.modules[i].write_results(packet);
            i = i + 1;
        }
    }

    /// Reads what `write_results` wrote.
    pub fn read_results(&mut self, packet: &mut InPacket)
        ensures
            final(self)@ == old(self)@,
            final(packet).content() == old(packet).content(),
            final(packet).consumed() == old(packet).consumed(),
    {
        let ghost before = self@;
        let n = self.modules.len();
        let mut i: usize = 0;
        while i < n
            invariant
                i <= n,
                n == self.modules.len(),
                self@ == before,
                packet.content() == old(packet).content(),
                packet.consumed() == old(packet).consumed(),
            decreases n - i,
        {
            self.modules[i].read_results(packet);
            proof {
                assert(self.modules@ =~= before.modules);
            }
            i = i + 1;
        }
    }
}

} // verus!
