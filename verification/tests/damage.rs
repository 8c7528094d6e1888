use space_battle::module::proj_weapon::ProjectileWeaponModule;
use space_battle::module::{Module, ModuleBase};
use space_battle::ship::{Ship, ShipState};

fn ship_of_weapons(id: u64, weapons: usize) -> Ship {
    let mut ship = Ship::new(id);
    for _ in 0..weapons {
        assert!(ship.add_module(ProjectileWeaponModule::new()));
    }
    ship
}

fn hp_of(ship: &Ship, slot: usize) -> u8 {
    ship.modules[slot].get_base().get_hp()
}

#[test]
fn a_new_base_is_undamaged_and_off() {
    let base = ModuleBase::new(4, 1, 9);
    assert_eq!(base.get_power(), 4);
    assert_eq!(base.get_min_hp(), 1);
    assert_eq!(base.get_max_hp(), 9);
    assert_eq!(base.get_hp(), 9);
    assert!(!base.powered);
    assert!(!base.plan_powered);
    assert!(base.can_activate());
    assert!(!base.is_active());
}

#[test]
fn a_module_loses_no_more_health_than_it_has() {
    let mut base = ModuleBase::new(1, 2, 3);
    assert_eq!(base.deal_damage(2), 2);
    assert_eq!(base.get_hp(), 1);
    assert!(!base.can_activate());
    assert_eq!(base.deal_damage(5), 1);
    assert_eq!(base.get_hp(), 0);
    assert_eq!(base.deal_damage(5), 0);
    assert_eq!(base.get_hp(), 0);
}

#[test]
fn a_new_state_is_empty() {
    let state = ShipState::new();
    assert_eq!(state.get_hp(), 0);
    assert_eq!(state.total_module_hp, 0);
    assert_eq!(state.power, 0);
    assert_eq!(state.plan_power, 0);
    assert_eq!(state.thrust, 0);
    assert_eq!(state.shields, 0);
    assert_eq!(state.max_shields, 0);
}

#[test]
fn power_moves_in_both_pools() {
    let mut state = ShipState::new();
    state.add_power(7);
    assert_eq!((state.power, state.plan_power), (7, 7));
    state.remove_power(3);
    assert_eq!((state.power, state.plan_power), (4, 4));
    state.add_power(251);
    assert_eq!((state.power, state.plan_power), (255, 255));
}

#[test]
fn shields_never_exceed_their_maximum_after_removal() {
    let mut state = ShipState::new();
    state.add_shields(5);
    assert_eq!(state.max_shields, 5);
    assert_eq!(state.shields, 0);
    state.shields = 4;
    state.remove_shields(2);
    assert_eq!(state.max_shields, 3);
    assert_eq!(state.shields, 3);
    state.remove_shields(1);
    assert_eq!(state.max_shields, 2);
    assert_eq!(state.shields, 2);
    state.shields = 1;
    state.remove_shields(1);
    assert_eq!(state.shields, 1);
}

#[test]
fn shields_are_emptied_before_a_simulation() {
    let mut state = ShipState::new();
    state.add_shields(5);
    state.shields = 5;
    state.pre_before_simulation();
    assert_eq!(state.shields, 0);
    assert_eq!(state.max_shields, 5);
}

#[test]
fn ship_health_is_half_the_module_health_rounded_down() {
    let mut ship = ship_of_weapons(1, 3);
    assert_eq!(ship.state.total_module_hp, 9);
    assert_eq!(ship.state.get_hp(), 4);
    ship.damage_module(1, 1);
    assert_eq!(ship.state.total_module_hp, 8);
    assert_eq!(ship.state.get_hp(), 4);
    ship.damage_module(1, 1);
    assert_eq!(ship.state.total_module_hp, 7);
    assert_eq!(ship.state.get_hp(), 3);
    ship.damage_module(0, 200);
    assert_eq!(ship.state.total_module_hp, 4);
    assert_eq!(ship.state.get_hp(), 2);
    ship.damage_module(2, 3);
    ship.damage_module(1, 1);
    assert_eq!(ship.state.total_module_hp, 0);
    assert_eq!(ship.state.get_hp(), 0);
    assert!(ship.is_valid());
}

#[test]
fn damage_is_clamped_by_the_module_and_by_the_ship() {
    let mut ship = ship_of_weapons(1, 2);
    // the ship has 6 health in all: a hit of 10 counts as 6, of which the
    // module can take 3
    ship.damage_module(0, 10);
    assert_eq!(hp_of(&ship, 0), 0);
    assert_eq!(hp_of(&ship, 1), 3);
    assert_eq!(ship.state.total_module_hp, 3);
    // a dead module takes nothing more
    ship.damage_module(0, 10);
    assert_eq!(ship.state.total_module_hp, 3);
    assert_eq!(ship.state.get_hp(), 1);
}

#[test]
fn the_clamp_to_the_ship_comes_before_the_shields() {
    let mut ship = ship_of_weapons(1, 1);
    ship.state.add_shields(10);
    ship.state.shields = 10;
    // the ship's modules have 3 health: the shields are charged 3, not 5
    ship.damage_module(0, 5);
    assert_eq!(ship.state.shields, 7);
    assert_eq!(hp_of(&ship, 0), 3);
}

#[test]
fn shields_absorb_before_the_module_is_touched() {
    let mut ship = ship_of_weapons(1, 3);
    ship.state.add_shields(2);
    ship.state.shields = 2;
    ship.damage_module(0, 5);
    assert_eq!(ship.state.shields, 0);
    assert_eq!(hp_of(&ship, 0), 3);
    assert_eq!(ship.state.total_module_hp, 9);
    assert_eq!(ship.state.get_hp(), 4);
    // the rest of the hit is not passed on; the next hit reaches the module
    ship.damage_module(0, 1);
    assert_eq!(hp_of(&ship, 0), 2);
    assert_eq!(ship.state.total_module_hp, 8);
}

#[test]
fn shields_take_a_small_hit_in_part() {
    let mut ship = ship_of_weapons(1, 3);
    ship.state.add_shields(6);
    ship.state.shields = 6;
    ship.damage_module(2, 4);
    assert_eq!(ship.state.shields, 2);
    assert_eq!(hp_of(&ship, 2), 3);
}

#[test]
fn a_module_left_too_weak_is_switched_off_and_refunds_once() {
    let mut ship = ship_of_weapons(1, 2);
    ship.state.add_power(3);
    assert!(ship.plan_module(0, true));
    ship.apply_module_plans();
    assert_eq!(ship.state.power, 1);
    assert!(ship.modules[0].get_base().powered);
    // 3 health, 2 needed: one point of damage leaves it running
    ship.damage_module(0, 1);
    assert!(ship.modules[0].get_base().powered);
    assert_eq!(ship.state.power, 1);
    // the next one does not
    ship.damage_module(0, 1);
    assert!(!ship.modules[0].get_base().powered);
    assert!(!ship.modules[0].get_base().is_active());
    assert_eq!(ship.state.power, 3);
    assert_eq!(ship.state.plan_power, 5);
    // and nothing more comes back
    ship.damage_module(0, 1);
    assert_eq!(ship.state.power, 3);
    assert_eq!(ship.state.plan_power, 5);
    assert!(ship.is_valid());
}

#[test]
fn shields_keep_a_module_running() {
    let mut ship = ship_of_weapons(1, 1);
    ship.state.add_power(2);
    assert!(ship.plan_module(0, true));
    ship.apply_module_plans();
    ship.state.add_shields(1);
    ship.state.shields = 1;
    ship.damage_module(0, 3);
    assert!(ship.modules[0].get_base().powered);
    assert_eq!(ship.state.power, 0);
    assert_eq!(hp_of(&ship, 0), 3);
}

#[test]
fn state_and_module_can_be_hit_on_their_own() {
    let mut state = ShipState::new();
    let mut module = ProjectileWeaponModule::new();
    state.total_module_hp = 3;
    state.hp = 1;
    module.get_base_mut().powered = true;
    state.deal_damage(&mut module, 2);
    assert_eq!(module.get_base().get_hp(), 1);
    assert!(!module.get_base().powered);
    assert_eq!(state.total_module_hp, 1);
    assert_eq!(state.get_hp(), 0);
    assert_eq!(state.power, 2);
    assert_eq!(state.plan_power, 2);
    let weapon = match module {
        Module::ProjectileWeapon(weapon) => weapon,
    };
    assert_eq!(weapon.target, None);
}
