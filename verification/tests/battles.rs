use space_battle::battle_state::{
    millis_at, tick_at, BattleContext, ShipKey, MILLIS_PER_TICK, PLANNING_SECONDS, ROUND_TICKS,
    SIMULATION_SECONDS, TICKS_PER_SECOND,
};
use space_battle::module::proj_weapon::ProjectileWeaponModule;
use space_battle::module::Module;
use space_battle::ship::Ship;

fn crewed_ship(id: u64, client: Option<u32>, weapons: usize) -> Ship {
    let mut ship = Ship::new(id);
    ship.client_id = client;
    for _ in 0..weapons {
        assert!(ship.add_module(ProjectileWeaponModule::new()));
    }
    ship
}

#[test]
fn ticks_and_milliseconds_go_by_the_rate() {
    assert_eq!(TICKS_PER_SECOND, 20);
    assert_eq!(MILLIS_PER_TICK * TICKS_PER_SECOND, 1000);
    assert_eq!(ROUND_TICKS, SIMULATION_SECONDS * TICKS_PER_SECOND);
    assert_eq!(PLANNING_SECONDS, 5);
    assert_eq!(tick_at(0), 0);
    assert_eq!(tick_at(49), 0);
    assert_eq!(tick_at(50), 1);
    assert_eq!(tick_at(2000), 40);
    assert_eq!(tick_at(4999), 99);
    assert_eq!(millis_at(40), 2000);
    assert_eq!(millis_at(0), 0);
    assert_eq!(tick_at(millis_at(73)), 73);
}

#[test]
fn a_new_battle_is_empty_and_valid() {
    let context = BattleContext::new();
    assert_eq!(context.ships.len(), 0);
    assert!(context.is_valid());
    assert_eq!(context.find_ship(ShipKey::Id(1)), None);
    assert!(context.get_ship(1).is_none());
    assert!(context.get_ship_by_client_id(1).is_none());
}

#[test]
fn ships_are_found_by_identifier_and_by_participant() {
    let mut context = BattleContext::new();
    assert!(context.add_ship(crewed_ship(10, Some(7), 1)));
    assert!(context.add_ship(crewed_ship(20, None, 2)));
    assert!(context.add_ship(crewed_ship(30, Some(8), 3)));
    assert_eq!(context.find_ship(ShipKey::Id(20)), Some(1));
    assert_eq!(context.find_ship(ShipKey::Client(8)), Some(2));
    assert_eq!(context.find_ship(ShipKey::Client(9)), None);
    assert_eq!(context.get_ship(30).unwrap().modules.len(), 3);
    assert_eq!(context.get_ship_by_client_id(7).unwrap().id, 10);
    assert!(context.get_ship(40).is_none());
    assert!(context.get_ship_by_client_id(20).is_none());
}

#[test]
fn a_battle_takes_each_identifier_and_each_participant_once() {
    let mut context = BattleContext::new();
    assert!(context.add_ship(crewed_ship(10, Some(7), 1)));
    assert!(!context.add_ship(crewed_ship(10, Some(8), 1)));
    assert!(!context.add_ship(crewed_ship(11, Some(7), 1)));
    assert!(context.add_ship(crewed_ship(11, None, 1)));
    assert!(context.add_ship(crewed_ship(12, None, 1)));
    assert_eq!(context.ships.len(), 3);
    assert!(context.is_valid());
}

#[test]
fn invalid_battles_are_found_out() {
    let mut context = BattleContext::new();
    assert!(context.add_ship(crewed_ship(10, Some(7), 1)));
    assert!(context.add_ship(crewed_ship(11, Some(8), 1)));
    assert!(context.is_valid());
    context.ships[1].id = 10;
    assert!(!context.is_valid());
    context.ships[1].id = 11;
    context.ships[1].client_id = Some(7);
    assert!(!context.is_valid());
    context.ships[1].client_id = None;
    assert!(context.is_valid());
    context.ships[0].state.total_module_hp = 1;
    assert!(!context.is_valid());
}

#[test]
fn damage_finds_its_module_or_does_nothing() {
    let mut context = BattleContext::new();
    assert!(context.add_ship(crewed_ship(10, None, 1)));
    assert!(context.add_ship(crewed_ship(20, None, 2)));
    let before = context.clone();
    assert!(!context.damage_module(30, 0, 1));
    assert!(!context.damage_module(20, 2, 1));
    assert_eq!(context, before);
    assert!(context.damage_module(20, 1, 1));
    assert_eq!(context.ships[1].modules[1].get_base().get_hp(), 2);
    assert_eq!(context.ships[1].state.total_module_hp, 5);
    assert_eq!(context.ships[0], before.ships[0]);
}

#[test]
fn aiming_needs_the_module_and_the_target() {
    let mut context = BattleContext::new();
    assert!(context.add_ship(crewed_ship(10, None, 1)));
    assert!(context.add_ship(crewed_ship(20, None, 2)));
    assert!(!context.aim_module(2, 0, None));
    assert!(!context.aim_module(0, 1, None));
    assert!(!context.aim_module(0, 0, Some((30, 0))));
    assert!(!context.aim_module(0, 0, Some((20, 2))));
    assert!(context.aim_module(0, 0, Some((20, 1))));
    match context.ships[0].modules[0] {
        Module::ProjectileWeapon(weapon) => assert_eq!(weapon.target, Some((20, 1))),
    }
    assert!(context.aim_module(0, 0, None));
    match context.ships[0].modules[0] {
        Module::ProjectileWeapon(weapon) => assert_eq!(weapon.target, None),
    }
    assert!(!context.plan_module(2, 0, true));
    assert!(!context.plan_module(1, 2, true));
    assert!(context.plan_module(1, 1, true));
    assert!(context.ships[1].modules[1].get_base().plan_powered);
}
