//! The projectile weapon: a module that fires at one module of another ship.

use vstd::prelude::*;
use crate::battle_state::{
    fleet_damaged, fleet_wf, position_of, resolves, same_roster, BattleContext, ShipKey,
};
use crate::module::{Module, ModuleBase};
use crate::net::{
    bool_bytes, lemma_bool_round_trip, lemma_u32_round_trip, lemma_u64_round_trip, parsed_bool,
    parsed_u32, parsed_u64, u32_bytes, u64_bytes, InPacket, OutPacket, ProtocolError,
};
use crate::ship::{ShipId, ShipState, ShipView};
use crate::sim::{SimEvent, SimEventAdder, Tick};

verus! {

/// Power that a projectile weapon draws while it runs.
pub const WEAPON_POWER: u8 = 2;

/// Health below which a projectile weapon cannot run.
pub const WEAPON_MIN_HP: u8 = 2;

/// Health of an undamaged projectile weapon.
pub const WEAPON_MAX_HP: u8 = 3;

/// Damage that the projectile of a new weapon deals.
pub const PROJECTILE_DAMAGE: u8 = 1;

/// Ticks by which each slot fires later than the slot before it, so that the
/// weapons of a ship do not hit at the same tick.
pub const STAGGER_TICKS: u64 = 10;

/// Ticks from the firing of a projectile to its leaving the screen.
pub const OFFSCREEN_DELAY: u64 = 20;

/// Ticks from the firing of a projectile to its hit.
pub const HIT_DELAY: u64 = 40;

/// The leg of its flight that a projectile is on.
#[derive(Clone, Copy, Debug, PartialEq, Eq, Structural)]
pub enum ProjectilePhase {
    /// From the weapon to the edge of the firing ship's screen.
    FireToOffscreen,
    /// From the edge of the target ship's screen to the target.
    OffscreenToTarget,
    /// At the target.
    Detonate,
}

/// The shot that a weapon fires in a round.
#[derive(Clone, Copy, Debug, PartialEq, Eq, Structural)]
pub struct Projectile {
    /// The leg of its flight that the projectile is on.
    pub phase: ProjectilePhase,
    /// Damage that the projectile deals where it hits.
    pub damage: u8,
    /// Whether the projectile has been marked as a hit in this round.
    pub hit: bool,
    /// Tick at which the projectile leaves the weapon.
    pub fire_tick: u64,
    /// Tick at which the projectile leaves one screen and enters the other.
    pub offscreen_tick: u64,
    /// Tick at which the projectile hits its target.
    pub hit_tick: u64,
}

impl Projectile {
    /// The leg of its flight that the projectile is on at `tick`: none before
    /// it is fired, the first from then until it leaves the screen, the second
    /// from then until it hits, and the last from the hit on.
    pub open spec fn spec_phase_at(&self, tick: Tick) -> Option<ProjectilePhase> {
        if tick < self.fire_tick {
            None
        } else if tick < self.offscreen_tick {
            Some(ProjectilePhase::FireToOffscreen)
        } else if tick < self.hit_tick {
            Some(ProjectilePhase::OffscreenToTarget)
        } else {
            Some(ProjectilePhase::Detonate)
        }
    }

    /// The leg of its flight that the projectile is on at `tick`, if it has
    /// been fired by then.
    #[verifier::when_used_as_spec(spec_phase_at)]
    pub fn phase_at(&self, tick: Tick) -> (phase: Option<ProjectilePhase>)
        ensures
            phase == self.spec_phase_at(tick),
    {
        if tick < self.fire_tick {
            None
        } else if tick < self.offscreen_tick {
            Some(ProjectilePhase::FireToOffscreen)
        } else if tick < self.hit_tick {
            Some(ProjectilePhase::OffscreenToTarget)
        } else {
            Some(ProjectilePhase::Detonate)
        }
    }
}

/// The encoding of what a weapon aims at: whether it aims at anything, and if
/// so the ship and then the slot.
pub open spec fn target_bytes(target: Option<(ShipId, u32)>) -> Seq<u8> {
    match target {
        None => bool_bytes(false),
        Some((ship, module)) => bool_bytes(true) + u64_bytes(ship) + u32_bytes(module),
    }
}

/// What reading a weapon's aim from the front of `bytes` gives, and the bytes
/// that follow it.
pub open spec fn parsed_target(bytes: Seq<u8>) -> Result<
    (Option<(ShipId, u32)>, Seq<u8>),
    ProtocolError,
> {
    match parsed_bool(bytes) {
        Err(e) => Err(e),
        Ok(aims) => if !aims {
            Ok((None, bytes.skip(1)))
        } else {
            match parsed_u64(bytes.skip(1)) {
                Err(e) => Err(e),
                Ok(ship) => match parsed_u32(bytes.skip(1).skip(8)) {
                    Err(e) => Err(e),
                    Ok(module) => Ok((Some((ship, module)), bytes.skip(1).skip(8).skip(4))),
                },
            }
        },
    }
}

/// An aim that was written is read back, and what followed it is left.
pub proof fn lemma_target_round_trip(target: Option<(ShipId, u32)>, rest: Seq<u8>)
    ensures
        parsed_target(target_bytes(target) + rest) == Ok::<
            (Option<(ShipId, u32)>, Seq<u8>),
            ProtocolError,
        >((target, rest)),
{
    match target {
        None => {
            lemma_bool_round_trip(false, rest);
        },
        Some((ship, module)) => {
            let bytes = target_bytes(target) + rest;
            let after_flag = u64_bytes(ship) + (u32_bytes(module) + rest);
            let after_ship = u32_bytes(module) + rest;
            assert(bytes =~= bool_bytes(true) + after_flag);
            lemma_bool_round_trip(true, after_flag);
            lemma_u64_round_trip(ship, after_ship);
            lemma_u32_round_trip(module, rest);
        },
    }
}

/// Whether the battle has what a weapon is to aim at, and if not, what is
/// missing. Aiming at nothing is always in order.
pub open spec fn target_vetted(ships: Seq<ShipView>, target: Option<(ShipId, u32)>) -> Result<
    (),
    ProtocolError,
> {
    match target {
        None => Ok(()),
        Some((ship, module)) => match position_of(ships, ShipKey::Id(ship)) {
            None => Err(ProtocolError::UnknownShip),
            Some(i) => if module < ships[i].modules.len() {
                Ok(())
            } else {
                Err(ProtocolError::UnknownModule)
            },
        },
    }
}

/// What reading a weapon's aim from the front of `bytes` and looking it up in
/// the battle gives, and the bytes that follow it: the aim if it can be read
/// and the battle has it, and else what is wrong.
pub open spec fn target_read(ships: Seq<ShipView>, bytes: Seq<u8>) -> Result<
    (Option<(ShipId, u32)>, Seq<u8>),
    ProtocolError,
> {
    match parsed_target(bytes) {
        Err(e) => Err(e),
        Ok((target, rest)) => match target_vetted(ships, target) {
            Err(e) => Err(e),
            Ok(()) => Ok((target, rest)),
        },
    }
}

/// A weapon that fires a projectile at a module of another ship.
#[derive(Clone, Copy, Debug, PartialEq, Eq)]
pub struct ProjectileWeaponModule {
    /// The state that the weapon shares with every other kind of module.
    pub base: ModuleBase,
    /// The shot of the current round.
    pub projectile: Projectile,
    /// The ship and the module slot that the weapon aims at, if any.
    pub target: Option<(ShipId, u32)>,
}

impl ProjectileWeaponModule {
    /// The weapon that `new` builds.
    pub open spec fn fresh() -> ProjectileWeaponModule {
        ProjectileWeaponModule {
            base: ModuleBase {
                x: 0,
                y: 0,
                power: WEAPON_POWER,
                min_hp: WEAPON_MIN_HP,
                max_hp: WEAPON_MAX_HP,
                hp: WEAPON_MAX_HP,
                powered: false,
                plan_powered: false,
                index: 0,
            },
            projectile: Projectile {
                phase: ProjectilePhase::FireToOffscreen,
                damage: PROJECTILE_DAMAGE,
                hit: false,
                fire_tick: 0,
                offscreen_tick: 0,
                hit_tick: 0,
            },
            target: None,
        }
    }

    /// An undamaged weapon that is switched off and aims at nothing.
    pub fn new() -> (module: Module)
        ensures
            module == Module::ProjectileWeapon(Self::fresh()),
            module.base().wf(),
    {
        let projectile = Projectile {
            phase: ProjectilePhase::FireToOffscreen,
            damage: PROJECTILE_DAMAGE,
            hit: false,
            fire_tick: 0,
            offscreen_tick: 0,
            hit_tick: 0,
        };
        Module::ProjectileWeapon(
            ProjectileWeaponModule {
                base: ModuleBase::new(WEAPON_POWER, WEAPON_MIN_HP, WEAPON_MAX_HP),
                projectile,
                target: None,
            },
        )
    }

    /// The weapon with its bookkeeping for the round reset: the projectile is
    /// no longer marked as a hit.
    pub open spec fn preprocessed(self) -> ProjectileWeaponModule {
        ProjectileWeaponModule { projectile: Projectile { hit: false, ..self.projectile }, ..self }
    }

    /// Resets the weapon's bookkeeping for the round.
    pub fn server_preprocess(&mut self, ship_state: &mut ShipState)
        ensures
            *final(self) == old(self).preprocessed(),
            *final(ship_state) == *old(ship_state),
    {
        self.projectile.hit = false;
    }

    /// The weapon once its shot for the round is set up. A weapon with a
    /// target fires at the tick that its slot gives it, `STAGGER_TICKS` for
    /// each slot before its own; its projectile is off the screen
    /// `OFFSCREEN_DELAY` ticks later and hits `HIT_DELAY` ticks after firing.
    /// A weapon without a target keeps the shot it had.
    pub open spec fn launched(self) -> ProjectileWeaponModule {
        match self.target {
            None => self,
            Some(_) => {
                let start = self.base.index * STAGGER_TICKS;
                ProjectileWeaponModule {
                    projectile: Projectile {
                        phase: ProjectilePhase::FireToOffscreen,
                        fire_tick: start as u64,
                        offscreen_tick: (start + OFFSCREEN_DELAY) as u64,
                        hit_tick: (start + HIT_DELAY) as u64,
                        ..self.projectile
                    },
                    ..self
                }
            },
        }
    }

    /// What the weapon schedules for the round: with a target, the damage of
    /// its projectile on the target at the tick of the hit; without, nothing.
    pub open spec fn impact(self) -> Option<(Tick, SimEvent)> {
        match self.target {
            None => None,
            Some((ship, module)) => Some(
                (
                    self.launched().projectile.hit_tick,
                    SimEvent::Damage(DamageEvent { ship, module, damage: self.projectile.damage }),
                ),
            ),
        }
    }

    /// Sets up the shot for the round and schedules its hit.
    pub fn before_simulation(&mut self, ship_state: &mut ShipState, events: &mut SimEventAdder)
        ensures
            *final(self) == old(self).launched(),
            *final(ship_state) == *old(ship_state),
            final(events).events@ == old(events).events@.with_impact(
                old(events).module,
                old(self).impact(),
            ),
            final(events).module == old(events).module,
            *final(final(events).events) == *final(old(events).events),
    {
        match self.target {
            Some((target_ship, target_module)) => {
                self.projectile.phase = ProjectilePhase::FireToOffscreen;

                let start: u64 = self.base.index as u64 * STAGGER_TICKS;

                self.projectile.fire_tick = start;
                self.projectile.offscreen_tick = start + OFFSCREEN_DELAY;
                self.projectile.hit_tick = start + HIT_DELAY;

                events.add(
                    self.projectile.hit_tick,
                    SimEvent::Damage(
                        DamageEvent::new(target_ship, target_module, self.projectile.damage),
                    ),
                );
            },
            None => {},
        }
    }

    /// Called when every tick of the round has been applied. A weapon has
    /// nothing to do.
    pub fn after_simulation(&mut self, ship_state: &mut ShipState)
        ensures
            *final(self) == *old(self),
            *final(ship_state) == *old(ship_state),
    {
    }

    /// Writes what the weapon aims at.
    pub fn write_plans(&self, packet: &mut OutPacket)
        ensures
            final(packet)@ == old(packet)@ + target_bytes(self.target),
    {
        match self.target {
            Some((ship, module)) => {
                packet.write_bool(true);
                packet.write_u64(ship);
                packet.write_u32(module);
                assert(packet@ =~= old(packet)@ + target_bytes(self.target));
            },
            None => {
                packet.write_bool(false);
            },
        }
    }

    /// Tries to read what `write_plans` wrote, and takes nothing over. A
    /// packet that could not be read is left as it was.
    pub fn parse_plans(&self, packet: &mut InPacket) -> (r: Result<
        Option<(ShipId, u32)>,
        ProtocolError,
    >)
        ensures
            match parsed_target(old(packet)@) {
                Ok((target, rest)) => r == Ok::<Option<(ShipId, u32)>, ProtocolError>(target)
                    && final(packet)@ == rest,
                Err(e) => r == Err::<Option<(ShipId, u32)>, ProtocolError>(e) && final(packet)@
                    == old(packet)@,
            },
            final(packet).content() == old(packet).content(),
            final(packet).consumed() >= old(packet).consumed(),
    {
        let mark = packet.mark();
        let aims = match packet.read_bool() {
            Ok(aims) => aims,
            Err(e) => {
                return Err(e);
            },
        };
        if !aims {
            return Ok(None);
        }
        let ship = match packet.read_u64() {
            Ok(ship) => ship,
            Err(e) => {
                packet.reset(mark);
                return Err(e);
            },
        };
        let module = match packet.read_u32() {
            Ok(module) => module,
            Err(e) => {
                packet.reset(mark);
                return Err(e);
            },
        };
        Ok(Some((ship, module)))
    }

    /// Whether the battle has what a weapon is to aim at, and if not, what is
    /// missing.
    pub fn vet_target(context: &BattleContext, target: Option<(ShipId, u32)>) -> (r: Result<
        (),
        ProtocolError,
    >)
        ensures
            r == target_vetted(context@, target),
    {
        match target {
            None => Ok(()),
            Some((ship, module)) => {
                match context.get_ship(ship) {
                    None => Err(ProtocolError::UnknownShip),
                    Some(found) => {
                        if module as usize >= found.modules.len() {
                            Err(ProtocolError::UnknownModule)
                        } else {
                            Ok(())
                        }
                    },
                }
            },
        }
    }

    /// Aims the weapon at `target`, which the battle `context` must have:
    /// `vet_target` tells.
    #[allow(unused_variables)]
    pub fn take_aim(&mut self, context: &BattleContext, target: Option<(ShipId, u32)>)
        requires
            target_vetted(context@, target) is Ok,
        ensures
            *final(self) == (ProjectileWeaponModule { target, ..*old(self) }),
    {
        self.target = target;
    }

    /// Reads what `write_plans` wrote and aims the weapon at it. The packet
    /// must hold an aim, and the battle must have what is aimed at:
    /// `parse_plans` and `vet_target` tell.
    pub fn read_plans(&mut self, context: &BattleContext, packet: &mut InPacket)
        requires
            target_read(context@, old(packet)@) is Ok,
        ensures
            target_read(context@, old(packet)@) == Ok::<
                (Option<(ShipId, u32)>, Seq<u8>),
                ProtocolError,
            >((final(self).target, final(packet)@)),
            *final(self) == (ProjectileWeaponModule { target: final(self).target, ..*old(self) }),
            final(packet).content() == old(packet).content(),
            final(packet).consumed() >= old(packet).consumed(),
    {
        let target = self.parse_plans(packet).unwrap();
        self.take_aim(context, target);
    }

    /// Called when the weapon's icon has been clicked. Always `true`.
    pub fn on_icon_clicked(&mut self) -> (r: bool)
        ensures
            r,
            *final(self) == *old(self),
    {
        true
    }

    /// Called when a module has been clicked while the weapon was selected:
    /// the weapon now aims at that module. Always `false`.
    pub fn on_module_clicked(&mut self, ship: ShipId, module: u32) -> (r: bool)
        ensures
            !r,
            *final(self) == (ProjectileWeaponModule { target: Some((ship, module)), ..*old(self) }),
    {
        self.target = Some((ship, module));
        false
    }

    /// Writes what the simulation decided about the weapon: nothing.
    pub fn write_results(&self, packet: &mut OutPacket)
        ensures
            final(packet)@ == old(packet)@,
    {
    }

    /// Reads what `write_results` wrote: nothing.
    pub fn read_results(&mut self, packet: &mut InPacket)
        ensures
            *final(self) == *old(self),
            final(packet).content() == old(packet).content(),
            final(packet).consumed() == old(packet).consumed(),
    {
    }

    /// Called when the weapon has been switched on. A weapon has nothing to do.
    pub fn on_activated(&mut self, ship_state: &mut ShipState)
        ensures
            *final(self) == *old(self),
            *final(ship_state) == *old(ship_state),
    {
    }

    /// Called when the weapon has been switched off. A weapon has nothing to do.
    pub fn on_deactivated(&mut self, ship_state: &mut ShipState)
        ensures
            *final(self) == *old(self),
            *final(ship_state) == *old(ship_state),
    {
    }
}

/// A hit on a module.
#[derive(Clone, Copy, Debug, PartialEq, Eq, Structural)]
pub struct DamageEvent {
    /// The ship that is hit.
    pub ship: ShipId,
    /// The slot of the module that is hit.
    pub module: u32,
    /// The damage that the hit deals.
    pub damage: u8,
}

impl DamageEvent {
    /// A hit of `damage` on the module in slot `module` of `ship`.
    pub fn new(ship: ShipId, module: u32, damage: u8) -> (event: DamageEvent)
        ensures
            event == (DamageEvent { ship, module, damage }),
    {
        DamageEvent { ship, module, damage }
    }

    /// Deals the damage and tells whether the battle has the module.
    pub fn apply(&self, context: &mut BattleContext) -> (applied: bool)
        requires
            fleet_wf(old(context)@),
        ensures
            applied == resolves(old(context)@, self.ship, self.module),
            final(context)@ == fleet_damaged(old(context)@, self.ship, self.module, self.damage),
            fleet_wf(final(context)@),
            same_roster(old(context)@, final(context)@),
    {
        context.damage_module(self.ship, self.module, self.damage)
    }
}

} // verus!
