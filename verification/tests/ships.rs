use space_battle::module::proj_weapon::{ProjectilePhase, ProjectileWeaponModule};
use space_battle::module::{Module, Tally};
use space_battle::ship::Ship;

fn fleet_ship(id: u64, weapons: usize, power: u8) -> Ship {
    let mut ship = Ship::new(id);
    for _ in 0..weapons {
        assert!(ship.add_module(ProjectileWeaponModule::new()));
    }
    ship.state.add_power(power);
    ship
}

#[test]
fn a_new_weapon_has_the_configured_values() {
    let weapon = match ProjectileWeaponModule::new() {
        Module::ProjectileWeapon(weapon) => weapon,
    };
    assert_eq!(weapon.base.get_power(), 2);
    assert_eq!(weapon.base.get_min_hp(), 2);
    assert_eq!(weapon.base.get_max_hp(), 3);
    assert_eq!(weapon.base.get_hp(), 3);
    assert!(!weapon.base.powered);
    assert_eq!(weapon.projectile.damage, 1);
    assert_eq!(weapon.projectile.phase, ProjectilePhase::FireToOffscreen);
    assert!(!weapon.projectile.hit);
    assert_eq!(weapon.target, None);
}

#[test]
fn a_new_ship_is_empty() {
    let ship = Ship::new(42);
    assert_eq!(ship.id, 42);
    assert_eq!(ship.client_id, None);
    assert_eq!(ship.modules.len(), 0);
    assert_eq!(ship.state.get_hp(), 0);
    assert!(ship.is_valid());
}

#[test]
fn modules_are_numbered_in_the_order_added() {
    let ship = fleet_ship(1, 4, 0);
    for slot in 0..4 {
        assert_eq!(ship.modules[slot].get_base().index, slot as u32);
    }
    assert_eq!(ship.state.total_module_hp, 12);
    assert_eq!(ship.state.get_hp(), 6);
    assert!(ship.is_valid());
}

#[test]
fn a_module_added_running_keeps_running_and_pays_nothing() {
    let mut ship = Ship::new(1);
    ship.state.add_power(1);
    let mut module = ProjectileWeaponModule::new();
    module.get_base_mut().powered = true;
    assert!(ship.add_module(module));
    assert!(ship.modules[0].get_base().powered);
    assert_eq!(ship.state.power, 1);
    assert_eq!(ship.tally(Tally::Spent), 2);
    assert!(ship.is_valid());
}

#[test]
fn a_ship_takes_no_more_health_than_it_can_count() {
    let mut ship = Ship::new(1);
    for _ in 0..85 {
        assert!(ship.add_module(ProjectileWeaponModule::new()));
    }
    assert_eq!(ship.state.total_module_hp, 255);
    assert!(!ship.add_module(ProjectileWeaponModule::new()));
    assert_eq!(ship.modules.len(), 85);
    assert_eq!(ship.state.total_module_hp, 255);
    assert_eq!(ship.state.get_hp(), 127);
}

#[test]
fn a_ship_refuses_a_broken_module() {
    let mut ship = Ship::new(1);
    let mut module = ProjectileWeaponModule::new();
    module.get_base_mut().hp = 1;
    module.get_base_mut().powered = true;
    assert!(!ship.add_module(module));
    let mut module = ProjectileWeaponModule::new();
    module.get_base_mut().hp = 4;
    assert!(!ship.add_module(module));
    assert_eq!(ship.modules.len(), 0);
}

#[test]
fn a_ship_refuses_power_that_its_pools_could_not_take_back() {
    let mut ship = Ship::new(1);
    ship.state.add_power(254);
    let mut module = ProjectileWeaponModule::new();
    module.get_base_mut().powered = true;
    assert!(!ship.add_module(module));
    assert!(ship.add_module(ProjectileWeaponModule::new()));
    assert!(!ship.plan_module(0, true));
    assert!(!ship.modules[0].get_base().plan_powered);
}

#[test]
fn a_plan_needs_a_slot() {
    let mut ship = fleet_ship(1, 1, 3);
    assert!(!ship.plan_module(1, true));
    assert!(ship.plan_module(0, true));
    assert!(ship.modules[0].get_base().plan_powered);
    assert!(!ship.modules[0].get_base().powered);
    assert_eq!(ship.state.power, 3);
}

#[test]
fn committing_switches_on_what_the_ship_can_afford() {
    let mut ship = fleet_ship(1, 1, 3);
    assert!(ship.plan_module(0, true));
    ship.apply_module_plans();
    assert!(ship.modules[0].get_base().powered);
    assert!(ship.modules[0].get_base().plan_powered);
    assert_eq!(ship.state.power, 1);
    assert_eq!(ship.state.plan_power, 3);
    assert_eq!(ship.tally(Tally::Spent), 2);
}

#[test]
fn committing_goes_by_slot_and_refuses_what_is_left_short() {
    let mut ship = fleet_ship(1, 3, 3);
    assert!(ship.plan_module(1, true));
    assert!(ship.plan_module(2, true));
    ship.apply_module_plans();
    assert!(!ship.modules[0].get_base().powered);
    assert!(ship.modules[1].get_base().powered);
    assert!(!ship.modules[2].get_base().powered);
    assert!(!ship.modules[2].get_base().plan_powered);
    assert_eq!(ship.state.power, 1);
    assert!(ship.is_valid());
}

#[test]
fn power_freed_in_a_slot_serves_the_slots_after_it() {
    let mut ship = fleet_ship(1, 2, 2);
    assert!(ship.plan_module(0, true));
    ship.apply_module_plans();
    assert_eq!(ship.state.power, 0);
    // off in slot 0 and on in slot 1: the power moves along
    assert!(ship.plan_module(0, false));
    assert!(ship.plan_module(1, true));
    ship.apply_module_plans();
    assert!(!ship.modules[0].get_base().powered);
    assert!(ship.modules[1].get_base().powered);
    assert_eq!(ship.state.power, 0);
    // the other way round the power is not there yet when slot 0 asks
    assert!(ship.plan_module(0, true));
    assert!(ship.plan_module(1, false));
    ship.apply_module_plans();
    assert!(!ship.modules[0].get_base().powered);
    assert!(!ship.modules[1].get_base().powered);
    assert_eq!(ship.state.power, 2);
}

#[test]
fn a_damaged_module_is_not_switched_on() {
    let mut ship = fleet_ship(1, 1, 3);
    ship.damage_module(0, 2);
    assert!(ship.plan_module(0, true));
    ship.apply_module_plans();
    assert!(!ship.modules[0].get_base().powered);
    assert!(!ship.modules[0].get_base().plan_powered);
    assert_eq!(ship.state.power, 3);
}

#[test]
fn spent_power_never_exceeds_the_budget() {
    let mut ship = fleet_ship(1, 5, 5);
    let budget = ship.state.power + ship.tally(Tally::Spent);
    for round in 0..6u32 {
        for slot in 0..5u32 {
            assert!(ship.plan_module(slot, (slot + round) % 2 == 0));
        }
        ship.apply_module_plans();
        let spent = ship.tally(Tally::Spent);
        assert_eq!(ship.state.power + spent, budget);
        assert!(spent <= budget);
        if round == 2 {
            ship.damage_module(0, 2);
            ship.damage_module(1, 2);
            assert_eq!(ship.state.power + ship.tally(Tally::Spent), budget);
        }
    }
}

#[test]
fn the_server_resets_the_hit_marks() {
    let mut ship = fleet_ship(1, 2, 0);
    for module in ship.modules.iter_mut() {
        match module {
            Module::ProjectileWeapon(weapon) => weapon.projectile.hit = true,
        }
    }
    ship.server_preprocess();
    for module in ship.modules.iter() {
        match module {
            Module::ProjectileWeapon(weapon) => assert!(!weapon.projectile.hit),
        }
    }
}

#[test]
fn a_snapshot_is_equal_and_independent() {
    let mut ship = fleet_ship(7, 2, 3);
    let copy = ship.snapshot();
    assert_eq!(copy, ship);
    ship.damage_module(0, 1);
    assert_ne!(copy, ship);
    assert_eq!(copy.modules[0].get_base().get_hp(), 3);
}

#[test]
fn tallies_add_up_health_and_power() {
    let mut ship = fleet_ship(1, 3, 4);
    assert!(ship.plan_module(0, true));
    assert!(ship.plan_module(2, true));
    assert_eq!(ship.tally(Tally::Health), 9);
    assert_eq!(ship.tally(Tally::Spent), 0);
    assert_eq!(ship.tally(Tally::Claimed), 4);
    ship.apply_module_plans();
    assert_eq!(ship.tally(Tally::Spent), 4);
    assert_eq!(ship.tally(Tally::Claimed), 4);
    assert_eq!(ship.modules[1].weigh(Tally::Health), 3);
}

#[test]
fn invalid_ships_are_found_out() {
    let mut ship = fleet_ship(1, 2, 0);
    assert!(ship.is_valid());
    ship.state.hp = 9;
    assert!(!ship.is_valid());
    ship.state.hp = 3;
    assert!(ship.is_valid());
    ship.modules[1].get_base_mut().index = 5;
    assert!(!ship.is_valid());
    ship.modules[1].get_base_mut().index = 1;
    ship.modules[0].get_base_mut().hp = 2;
    assert!(!ship.is_valid());
}
