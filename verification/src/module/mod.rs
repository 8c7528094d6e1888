//! Modules: the independently powered parts a ship is built from.
//!
//! Every kind of module carries a `ModuleBase`, which holds what all kinds
//! share: where the module sits, what it costs to run, and its health.

pub mod proj_weapon;

use vstd::prelude::*;
use crate::battle_state::BattleContext;
use crate::module::proj_weapon::{
    lemma_target_round_trip, parsed_target, target_bytes, target_read, target_vetted,
    ProjectileWeaponModule,
};
use crate::net::{
    bool_bytes, lemma_bool_round_trip, parsed_bool, InPacket, OutPacket, ProtocolError,
};
use crate::ship::{ShipId, ShipState, ShipView};
use crate::sim::{SimEvent, SimEventAdder, Tick};

verus! {

/// The state that every kind of module has.
#[derive(Clone, Copy, Debug, PartialEq, Eq, Structural)]
pub struct ModuleBase {
    /// Column of the module on the ship's grid.
    pub x: u8,
    /// Row of the module on the ship's grid.
    pub y: u8,
    /// Power that the module draws from its ship while it runs.
    pub power: u8,
    /// Health below which the module cannot run.
    pub min_hp: u8,
    /// Health of the undamaged module.
    pub max_hp: u8,
    /// Current health.
    pub hp: u8,
    /// Whether the module is running.
    pub powered: bool,
    /// Whether the module is to run once the current plan is committed.
    pub plan_powered: bool,
    /// The slot of the module within its ship.
    pub index: u32,
}

/// The smaller of two numbers.
pub open spec fn lesser(a: u8, b: u8) -> u8 {
    if a < b {
        a
    } else {
        b
    }
}

impl ModuleBase {
    /// Health is within its range, and a running module is healthy enough to run.
    pub open spec fn wf(self) -> bool {
        &&& self.hp <= self.max_hp
        &&& self.powered ==> self.hp >= self.min_hp
    }

    /// An undamaged module at the grid's origin that is switched off.
    pub fn new(power: u8, min_hp: u8, max_hp: u8) -> (base: ModuleBase)
        ensures
            base == (ModuleBase {
                x: 0,
                y: 0,
                power,
                min_hp,
                max_hp,
                hp: max_hp,
                powered: false,
                plan_powered: false,
                index: 0,
            }),
            base.wf(),
    {
        ModuleBase {
            x: 0,
            y: 0,
            power,
            min_hp,
            max_hp,
            hp: max_hp,
            powered: false,
            plan_powered: false,
            index: 0,
        }
    }

    /// Power that the module draws while it runs.
    pub fn get_power(&self) -> (power: u8)
        ensures
            power == self.power,
    {
        self.power
    }

    /// Current health.
    pub fn get_hp(&self) -> (hp: u8)
        ensures
            hp == self.hp,
    {
        self.hp
    }

    /// Health below which the module cannot run.
    pub fn get_min_hp(&self) -> (hp: u8)
        ensures
            hp == self.min_hp,
    {
        self.min_hp
    }

    /// Health of the undamaged module.
    pub fn get_max_hp(&self) -> (hp: u8)
        ensures
            hp == self.max_hp,
    {
        self.max_hp
    }

    /// Whether the module is healthy enough to run.
    pub open spec fn spec_can_activate(&self) -> bool {
        self.hp >= self.min_hp
    }

    /// Whether the module is healthy enough to run.
    #[verifier::when_used_as_spec(spec_can_activate)]
    pub fn can_activate(&self) -> (can: bool)
        ensures
            can == self.spec_can_activate(),
    {
        self.hp >= self.min_hp
    }

    /// Whether the module is switched on and healthy enough to run.
    pub open spec fn spec_is_active(&self) -> bool {
        self.powered && self.hp >= self.min_hp
    }

    /// Whether the module is switched on and healthy enough to run.
    #[verifier::when_used_as_spec(spec_is_active)]
    pub fn is_active(&self) -> (active: bool)
        ensures
            active == self.spec_is_active(),
    {
        self.powered && self.hp >= self.min_hp
    }

    /// Writes the part of a module's plan that every kind has: whether the
    /// module runs.
    pub fn write_plans(&self, packet: &mut OutPacket)
        ensures
            final(packet)@ == old(packet)@ + bool_bytes(self.powered),
    {
        packet.write_bool(self.powered);
    }

    /// Tries to read what `write_plans` wrote. The module is not touched: what
    /// the plan does to the power of the ship is for the ship to see to. A
    /// packet that could not be read is left as it was.
    pub fn parse_plans(&self, packet: &mut InPacket) -> (r: Result<bool, ProtocolError>)
        ensures
            r == parsed_bool(old(packet)@),
            final(packet)@ == if r is Ok {
                old(packet)@.skip(1)
            } else {
                old(packet)@
            },
            final(packet).content() == old(packet).content(),
            final(packet).consumed() >= old(packet).consumed(),
    {
        packet.read_bool()
    }

    /// The module after a hit of `damage`: it loses that much health, or all
    /// it has if it has less.
    pub open spec fn damaged(self, damage: u8) -> ModuleBase {
        ModuleBase { hp: (self.hp - lesser(self.hp, damage)) as u8, ..self }
    }

    /// Takes a hit of `damage` and returns the health that was lost.
    pub fn deal_damage(&mut self, damage: u8) -> (dealt: u8)
        ensures
            dealt == lesser(old(self).hp, damage),
            *final(self) == old(self).damaged(damage),
    {
        let dealt: u8 = if self.hp < damage {
            self.hp
        } else {
            damage
        };
        self.hp = self.hp - dealt;
        dealt
    }
}

/// A module of any kind.
#[derive(Clone, Copy, Debug, PartialEq, Eq)]
pub enum Module {
    /// A weapon that fires a projectile at a module of another ship.
    ProjectileWeapon(ProjectileWeaponModule),
}

/// What a plan says of one module.
#[derive(Clone, Copy, Debug, PartialEq, Eq)]
pub struct ModulePlan {
    /// Whether the module runs.
    pub powered: bool,
    /// What the module aims at, if it is a weapon and aims at anything.
    pub target: Option<(ShipId, u32)>,
}

impl ModulePlan {
    /// The encoding of the plan: whether the module runs, then what is
    /// particular to its kind.
    pub open spec fn bytes(self) -> Seq<u8> {
        bool_bytes(self.powered) + target_bytes(self.target)
    }
}

/// What reading the plan of `module` from the front of `bytes` gives, and the
/// bytes that follow it.
pub open spec fn plan_parsed(module: Module, bytes: Seq<u8>) -> Result<
    (ModulePlan, Seq<u8>),
    ProtocolError,
> {
    match parsed_bool(bytes) {
        Err(e) => Err(e),
        Ok(powered) => match module {
            Module::ProjectileWeapon(_) => match parsed_target(bytes.skip(1)) {
                Err(e) => Err(e),
                Ok((target, rest)) => Ok((ModulePlan { powered, target }, rest)),
            },
        },
    }
}

/// A plan that was written is read back, and what followed it is left.
pub proof fn lemma_plan_round_trip(module: Module, plan: ModulePlan, rest: Seq<u8>)
    ensures
        plan_parsed(module, plan.bytes() + rest) == Ok::<(ModulePlan, Seq<u8>), ProtocolError>(
            (plan, rest),
        ),
{
    let tail = target_bytes(plan.target) + rest;
    assert(plan.bytes() + rest =~= bool_bytes(plan.powered) + tail);
    lemma_bool_round_trip(plan.powered, tail);
    lemma_target_round_trip(plan.target, rest);
}

/// A quantity that is added up over the modules of a ship.
#[derive(Clone, Copy, Debug, PartialEq, Eq, Structural)]
pub enum Tally {
    /// The health of each module.
    Health,
    /// The power that each running module draws.
    Spent,
    /// The power that each module draws that runs or that is planned to run and
    /// healthy enough for it.
    Claimed,
}

impl Module {
    /// The state that the module shares with every other kind.
    pub open spec fn base(self) -> ModuleBase {
        match self {
            Module::ProjectileWeapon(weapon) => weapon.base,
        }
    }

    /// The same module with another shared state.
    pub open spec fn with_base(self, base: ModuleBase) -> Module {
        match self {
            Module::ProjectileWeapon(weapon) => Module::ProjectileWeapon(
                ProjectileWeaponModule { base, ..weapon },
            ),
        }
    }

    /// What the module adds to a tally.
    pub open spec fn weight(self, tally: Tally) -> nat {
        let base = self.base();
        match tally {
            Tally::Health => base.hp as nat,
            Tally::Spent => if base.powered {
                base.power as nat
            } else {
                0
            },
            Tally::Claimed => if base.powered || (base.plan_powered && base.can_activate()) {
                base.power as nat
            } else {
                0
            },
        }
    }

    /// What the module adds to a tally.
    pub fn weigh(&self, tally: Tally) -> (weight: u8)
        ensures
            weight == self.weight(tally),
    {
        let base = self.get_base();
        match tally {
            Tally::Health => base.hp,
            Tally::Spent => if base.powered {
                base.power
            } else {
                0
            },
            Tally::Claimed => if base.powered || (base.plan_powered && base.can_activate()) {
                base.power
            } else {
                0
            },
        }
    }

    /// The state that the module shares with every other kind.
    pub fn get_base(&self) -> (base: &ModuleBase)
        ensures
            *base == self.base(),
    {
        match self {
            Module::ProjectileWeapon(weapon) => &weapon.base,
        }
    }

    /// The shared state, to be changed in place.
    pub fn get_base_mut(&mut self) -> (base: &mut ModuleBase)
        ensures
            *base == old(self).base(),
            *final(self) == old(self).with_base(*final(base)),
    {
        match self {
            Module::ProjectileWeapon(weapon) => &mut weapon.base,
        }
    }

    /// The committed plan of the module: whether it runs, and what is
    /// particular to its kind.
    pub open spec fn plan(self) -> ModulePlan {
        match self {
            Module::ProjectileWeapon(weapon) => ModulePlan {
                powered: weapon.base.powered,
                target: weapon.target,
            },
        }
    }

    /// The module with the part of `plan` that is particular to its kind.
    pub open spec fn with_payload(self, plan: ModulePlan) -> Module {
        match self {
            Module::ProjectileWeapon(weapon) => Module::ProjectileWeapon(
                ProjectileWeaponModule { target: plan.target, ..weapon },
            ),
        }
    }

    /// The module with `plan` as its committed plan: it runs or not as the
    /// plan says, plans to be what it is, and has what is particular to its
    /// kind from the plan.
    pub open spec fn planned(self, plan: ModulePlan) -> Module {
        let taken = self.with_payload(plan);
        taken.with_base(
            ModuleBase { powered: plan.powered, plan_powered: plan.powered, ..taken.base() },
        )
    }

    /// Whether the battle has what `plan` makes the module refer to, and if
    /// not, what is missing.
    pub open spec fn plan_vetted(self, ships: Seq<ShipView>, plan: ModulePlan) -> Result<
        (),
        ProtocolError,
    > {
        match self {
            Module::ProjectileWeapon(_) => target_vetted(ships, plan.target),
        }
    }

    /// Writes the part of the module's plan that is particular to its kind.
    pub fn write_plans(&self, packet: &mut OutPacket)
        ensures
            final(packet)@ == old(packet)@ + target_bytes(self.plan().target),
    {
        match self {
            Module::ProjectileWeapon(weapon) => weapon.write_plans(packet),
        }
    }

    /// Tries to read what `write_plans` wrote, and takes nothing over. A
    /// packet that could not be read is left as it was.
    pub fn parse_plans(&self, packet: &mut InPacket) -> (r: Result<
        Option<(ShipId, u32)>,
        ProtocolError,
    >)
        ensures
            match parsed_target(old(packet)@) {
                Ok((target, rest)) => r == Ok::<Option<(ShipId, u32)>, ProtocolError>(target)
                    && final(packet)@ == rest,
                Err(e) => r == Err::<Option<(ShipId, u32)>, ProtocolError>(e) && final(packet)@
                    == old(packet)@,
            },
            final(packet).content() == old(packet).content(),
            final(packet).consumed() >= old(packet).consumed(),
    {
        match self {
            Module::ProjectileWeapon(weapon) => weapon.parse_plans(packet),
        }
    }

    /// Whether the battle has what `plan` makes the module refer to, and if
    /// not, what is missing.
    pub fn vet_plan(&self, context: &BattleContext, plan: ModulePlan) -> (r: Result<
        (),
        ProtocolError,
    >)
        ensures
            r == self.plan_vetted(context@, plan),
    {
        match self {
            Module::ProjectileWeapon(_) => ProjectileWeaponModule::vet_target(context, plan.target),
        }
    }

    /// Takes over the part of `plan` that is particular to the module's kind.
    /// The battle must have what the plan refers to: `vet_plan` tells.
    pub fn take_plan(&mut self, context: &BattleContext, plan: ModulePlan)
        requires
            old(self).plan_vetted(context@, plan) is Ok,
        ensures
            *final(self) == old(self).with_payload(plan),
    {
        match self {
            Module::ProjectileWeapon(weapon) => weapon.take_aim(context, plan.target),
        }
    }

    /// Reads the part of the module's plan that is particular to its kind and
    /// takes it over. The packet must hold that part, and the battle must have
    /// what it refers to: `parse_plans` and `vet_plan` tell.
    pub fn read_plans(&mut self, context: &BattleContext, packet: &mut InPacket)
        requires
            target_read(context@, old(packet)@) is Ok,
        ensures
            target_read(context@, old(packet)@) == Ok::<
                (Option<(ShipId, u32)>, Seq<u8>),
                ProtocolError,
            >((final(self).plan().target, final(packet)@)),
            *final(self) == old(self).with_payload(final(self).plan()),
            final(packet).content() == old(packet).content(),
            final(packet).consumed() >= old(packet).consumed(),
    {
        match self {
            Module::ProjectileWeapon(weapon) => weapon.read_plans(context, packet),
        }
    }

    /// Called when the module's icon has been clicked.
    pub fn on_icon_clicked(&mut self) -> (r: bool)
        ensures
            r,
            *final(self) == *old(self),
    {
        match self {
            Module::ProjectileWeapon(weapon) => weapon.on_icon_clicked(),
        }
    }

    /// Called when the module in slot `module` of `ship` has been clicked
    /// while this module was selected.
    pub fn on_module_clicked(&mut self, ship: ShipId, module: u32) -> (r: bool)
        ensures
            !r,
            *final(self) == old(self).with_payload(
                ModulePlan { powered: old(self).base().powered, target: Some((ship, module)) },
            ),
    {
        match self {
            Module::ProjectileWeapon(weapon) => weapon.on_module_clicked(ship, module),
        }
    }

    /// The module with its bookkeeping for the round reset.
    pub open spec fn preprocessed(self) -> Module {
        match self {
            Module::ProjectileWeapon(weapon) => Module::ProjectileWeapon(weapon.preprocessed()),
        }
    }

    /// Resets the module's bookkeeping for the round. Only the server does so,
    /// once per round and before planning.
    pub fn server_preprocess(&mut self, ship_state: &mut ShipState)
        ensures
            *final(self) == old(self).preprocessed(),
            *final(ship_state) == *old(ship_state),
    {
        match self {
            Module::ProjectileWeapon(weapon) => weapon.server_preprocess(ship_state),
        }
    }

    /// The module once it is set up for the simulation of the round.
    pub open spec fn launched(self) -> Module {
        match self {
            Module::ProjectileWeapon(weapon) => Module::ProjectileWeapon(weapon.launched()),
        }
    }

    /// What the module schedules for the round, if anything.
    pub open spec fn impact(self) -> Option<(Tick, SimEvent)> {
        match self {
            Module::ProjectileWeapon(weapon) => weapon.impact(),
        }
    }

    /// Sets the module up for the simulation of the round, and schedules what
    /// the committed plan makes it do.
    pub fn before_simulation(&mut self, ship_state: &mut ShipState, events: &mut SimEventAdder)
        ensures
            *final(self) == old(self).launched(),
            *final(ship_state) == *old(ship_state),
            final(events).events@ == old(events).events@.with_impact(
                old(events).module,
                old(self).impact(),
            ),
            final(events).module == old(events).module,
            *final(final(events).events) == *final(old(events).events),
    {
        match self {
            Module::ProjectileWeapon(weapon) => weapon.before_simulation(ship_state, events),
        }
    }

    /// Called when every tick of the round has been applied.
    pub fn after_simulation(&mut self, ship_state: &mut ShipState)
        ensures
            *final(self) == *old(self),
            *final(ship_state) == *old(ship_state),
    {
        match self {
            Module::ProjectileWeapon(weapon) => weapon.after_simulation(ship_state),
        }
    }

    /// Writes what the simulation decided about the module and what damage
    /// does not already tell.
    pub fn write_results(&self, packet: &mut OutPacket)
        ensures
            final(packet)@ == old(packet)@,
    {
        match self {
            Module::ProjectileWeapon(weapon) => weapon.write_results(packet),
        }
    }

    /// Reads what `write_results` wrote.
    pub fn read_results(&mut self, packet: &mut InPacket)
        ensures
            *final(self) == *old(self),
            final(packet).content() == old(packet).content(),
            final(packet).consumed() == old(packet).consumed(),
    {
        match self {
            Module::ProjectileWeapon(weapon) => weapon.read_results(packet),
        }
    }

    /// Called when the module has been switched on.
    pub fn on_activated(&mut self, ship_state: &mut ShipState)
        ensures
            *final(self) == *old(self),
            *final(ship_state) == *old(ship_state),
    {
        match self {
            Module::ProjectileWeapon(weapon) => weapon.on_activated(ship_state),
        }
    }

    /// Called when the module has been switched off.
    pub fn on_deactivated(&mut self, ship_state: &mut ShipState)
        ensures
            *final(self) == *old(self),
            *final(ship_state) == *old(ship_state),
    {
        match self {
            Module::ProjectileWeapon(weapon) => weapon.on_deactivated(ship_state),
        }
    }
}

/// The sum of a tally over `modules`.
pub open spec fn total_of(modules: Seq<Module>, tally: Tally) -> nat
    decreases modules.len(),
{
    if modules.len() == 0 {
        0
    } else {
        total_of(modules.drop_last(), tally) + modules.last().weight(tally)
    }
}

/// Appending a module adds its weight to the total.
pub proof fn lemma_total_push(modules: Seq<Module>, module: Module, tally: Tally)
    ensures
        total_of(modules.push(module), tally) == total_of(modules, tally) + module.weight(tally),
{
    assert(modules.push(module).drop_last() =~= modules);
}

/// Replacing a module replaces its weight in the total.
pub proof fn lemma_total_update(modules: Seq<Module>, i: int, module: Module, tally: Tally)
    requires
        0 <= i < modules.len(),
    ensures
        total_of(modules.update(i, module), tally) + modules[i].weight(tally) == total_of(
            modules,
            tally,
        ) + module.weight(tally),
    decreases modules.len(),
{
    let updated = modules.update(i, module);
    if i == modules.len() - 1 {
        assert(updated.drop_last() =~= modules.drop_last());
    } else {
        lemma_total_update(modules.drop_last(), i, module, tally);
        assert(updated.drop_last() =~= modules.drop_last().update(i, module));
    }
}

/// No module weighs more than the total.
pub proof fn lemma_total_member(modules: Seq<Module>, i: int, tally: Tally)
    requires
        0 <= i < modules.len(),
    ensures
        modules[i].weight(tally) <= total_of(modules, tally),
    decreases modules.len(),
{
    if i < modules.len() - 1 {
        lemma_total_member(modules.drop_last(), i, tally);
    }
}

/// The total is what the first module weighs and what the others add up to.
pub proof fn lemma_total_front(modules: Seq<Module>, tally: Tally)
    requires
        modules.len() > 0,
    ensures
        total_of(modules, tally) == modules[0].weight(tally) + total_of(modules.skip(1), tally),
    decreases modules.len(),
{
    if modules.len() == 1 {
        assert(modules.drop_last() =~= Seq::<Module>::empty());
        assert(modules.skip(1) =~= Seq::<Module>::empty());
    } else {
        let front = modules.drop_last();
        lemma_total_front(front, tally);
        assert(modules.skip(1).drop_last() =~= front.skip(1));
        assert(modules.skip(1).last() == modules.last());
    }
}

/// The first modules add up to no more than all of them.
pub proof fn lemma_total_prefix(modules: Seq<Module>, n: int, tally: Tally)
    requires
        0 <= n <= modules.len(),
    ensures
        total_of(modules.take(n), tally) <= total_of(modules, tally),
    decreases modules.len(),
{
    if n == modules.len() {
        assert(modules.take(n) =~= modules);
    } else {
        lemma_total_prefix(modules.drop_last(), n, tally);
        assert(modules.drop_last().take(n) =~= modules.take(n));
    }
}

/// Modules that weigh the same one by one add up to the same total.
pub proof fn lemma_total_same_weights(a: Seq<Module>, b: Seq<Module>, tally: Tally)
    requires
        a.len() == b.len(),
        forall|i: int| 0 <= i < a.len() ==> (#[trigger] a[i]).weight(tally) == b[i].weight(tally),
    ensures
        total_of(a, tally) == total_of(b, tally),
    decreases a.len(),
{
    if a.len() > 0 {
        let (front_a, front_b) = (a.drop_last(), b.drop_last());
        assert forall|i: int| 0 <= i < front_a.len() implies (#[trigger] front_a[i]).weight(tally)
            == front_b[i].weight(tally) by {
            assert(front_a[i] == a[i]);
            assert(front_b[i] == b[i]);
        }
        lemma_total_same_weights(front_a, front_b, tally);
        assert(a.last() == a[a.len() - 1]);
    }
}

/// Modules with the same shared state add up to the same totals.
pub proof fn lemma_total_same_bases(a: Seq<Module>, b: Seq<Module>, tally: Tally)
    requires
        a.len() == b.len(),
        forall|i: int| 0 <= i < a.len() ==> (#[trigger] a[i]).base() == b[i].base(),
    ensures
        total_of(a, tally) == total_of(b, tally),
{
    assert forall|i: int| 0 <= i < a.len() implies (#[trigger] a[i]).weight(tally) == b[i].weight(
        tally,
    ) by {
        assert(a[i].base() == b[i].base());
    }
    lemma_total_same_weights(a, b, tally);
}

/// What runs has a claim on power, so no more is spent than claimed.
pub proof fn lemma_spent_within_claimed(modules: Seq<Module>)
    ensures
        total_of(modules, Tally::Spent) <= total_of(modules, Tally::Claimed),
    decreases modules.len(),
{
    if modules.len() > 0 {
        lemma_spent_within_claimed(modules.drop_last());
    }
}

} // verus!
