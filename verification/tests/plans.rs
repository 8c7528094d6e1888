use space_battle::battle_state::BattleContext;
use space_battle::module::proj_weapon::ProjectileWeaponModule;
use space_battle::module::{Module, ModulePlan};
use space_battle::net::{InPacket, OutPacket, ProtocolError};
use space_battle::ship::Ship;

fn armed_ship(id: u64, weapons: usize, power: u8) -> Ship {
    let mut ship = Ship::new(id);
    for _ in 0..weapons {
        assert!(ship.add_module(ProjectileWeaponModule::new()));
    }
    ship.state.add_power(power);
    ship
}

fn battle_of(ships: Vec<Ship>) -> BattleContext {
    let mut context = BattleContext::new();
    for ship in ships {
        assert!(context.add_ship(ship));
    }
    context
}

fn target_of(ship: &Ship, slot: usize) -> Option<(u64, u32)> {
    match ship.modules[slot] {
        Module::ProjectileWeapon(weapon) => weapon.target,
    }
}

fn written(ship: &Ship) -> Vec<u8> {
    let mut packet = OutPacket::new();
    ship.write_plans(&mut packet);
    packet.into_bytes()
}

#[test]
fn a_plan_is_the_power_flag_and_the_aim() {
    let mut ship = armed_ship(1, 2, 3);
    assert!(ship.plan_module(0, true));
    ship.apply_module_plans();
    assert!(!ship.modules[0].on_module_clicked(0x0A0B, 2));
    assert_eq!(
        written(&ship),
        vec![
            1, 1, 0x0B, 0x0A, 0, 0, 0, 0, 0, 0, 2, 0, 0, 0, // slot 0: on, aims at (0x0A0B, 2)
            0, 0, // slot 1: off, aims at nothing
        ]
    );
}

#[test]
fn a_ship_without_modules_writes_nothing() {
    let ship = Ship::new(1);
    assert_eq!(written(&ship), Vec::<u8>::new());
}

#[test]
fn clicking_the_icon_changes_nothing() {
    let mut module = ProjectileWeaponModule::new();
    let before = module;
    assert!(module.on_icon_clicked());
    assert_eq!(module, before);
}

#[test]
fn plans_are_parsed_in_slot_order() {
    let ship = armed_ship(1, 2, 0);
    let mut packet = InPacket::new(vec![1, 1, 5, 0, 0, 0, 0, 0, 0, 0, 3, 0, 0, 0, 0, 0, 99]);
    let plans = ship.parse_plans(&mut packet).unwrap();
    assert_eq!(
        plans,
        vec![
            ModulePlan { powered: true, target: Some((5, 3)) },
            ModulePlan { powered: false, target: None },
        ]
    );
    assert_eq!(packet.remaining(), 1);
}

#[test]
fn what_is_written_is_read_back() {
    let enemy = armed_ship(2, 3, 0);
    let context = battle_of(vec![enemy]);

    let mut sender = armed_ship(1, 3, 5);
    assert!(sender.plan_module(0, true));
    assert!(sender.plan_module(2, true));
    sender.apply_module_plans();
    sender.modules[0].on_module_clicked(2, 2);
    sender.modules[1].on_module_clicked(2, 0);

    let mut receiver = armed_ship(1, 3, 5);
    let mut bytes = written(&sender);
    bytes.push(0xEE);
    let mut packet = InPacket::new(bytes);
    assert_eq!(receiver.check_plans(&context, &mut packet), Ok(()));
    assert_eq!(packet.remaining(), 14 + 14 + 2 + 1);
    receiver.read_plans(&context, &mut packet);
    assert_eq!(packet.remaining(), 1);
    for slot in 0..3 {
        assert_eq!(
            receiver.modules[slot].get_base().powered,
            sender.modules[slot].get_base().powered
        );
        assert_eq!(target_of(&receiver, slot), target_of(&sender, slot));
    }
    assert_eq!(receiver.state.power, 1);
    assert_eq!(receiver.state.plan_power, 1);
    assert_eq!(written(&receiver), written(&sender));
    assert!(receiver.is_valid());
}

#[test]
fn reading_switches_off_and_clears_the_aim_too() {
    let context = battle_of(vec![armed_ship(2, 1, 0)]);
    let mut receiver = armed_ship(1, 1, 2);
    assert!(receiver.plan_module(0, true));
    receiver.apply_module_plans();
    receiver.modules[0].on_module_clicked(2, 0);
    assert_eq!(receiver.state.power, 0);

    let mut packet = InPacket::new(vec![0, 0]);
    assert_eq!(receiver.check_plans(&context, &mut packet), Ok(()));
    receiver.read_plans(&context, &mut packet);
    assert_eq!(packet.remaining(), 0);
    assert!(!receiver.modules[0].get_base().powered);
    assert!(!receiver.modules[0].get_base().plan_powered);
    assert_eq!(target_of(&receiver, 0), None);
    assert_eq!(receiver.state.power, 2);
    assert_eq!(receiver.state.plan_power, 4);
}

#[test]
fn a_plan_that_ends_early_is_truncated() {
    let context = battle_of(vec![armed_ship(2, 1, 0)]);
    let receiver = armed_ship(1, 2, 5);
    let before = receiver.snapshot();
    for bytes in [
        vec![],
        vec![1],
        vec![1, 0],
        vec![1, 0, 1],
        vec![1, 0, 1, 1, 2, 0, 0, 0, 0, 0, 0, 0],
        vec![1, 0, 1, 1, 2, 0, 0, 0, 0, 0, 0, 0, 0, 0, 0],
    ] {
        let length = bytes.len();
        let mut packet = InPacket::new(bytes);
        assert_eq!(receiver.check_plans(&context, &mut packet), Err(ProtocolError::Truncated));
        assert_eq!(packet.remaining(), length);
        assert_eq!(receiver, before);
    }
}

#[test]
fn a_plan_with_a_bad_flag_is_invalid() {
    let context = battle_of(vec![armed_ship(2, 1, 0)]);
    let receiver = armed_ship(1, 1, 5);
    let mut packet = InPacket::new(vec![3, 0]);
    assert_eq!(receiver.check_plans(&context, &mut packet), Err(ProtocolError::InvalidValue));
    let mut packet = InPacket::new(vec![1, 7]);
    assert_eq!(receiver.check_plans(&context, &mut packet), Err(ProtocolError::InvalidValue));
    assert_eq!(packet.remaining(), 2);
    assert_eq!(receiver, armed_ship(1, 1, 5));
}

#[test]
fn a_plan_that_aims_at_a_missing_ship_is_refused() {
    let context = battle_of(vec![armed_ship(2, 1, 0)]);
    let receiver = armed_ship(1, 1, 5);
    let mut packet = InPacket::new(vec![1, 1, 9, 0, 0, 0, 0, 0, 0, 0, 0, 0, 0, 0]);
    assert_eq!(receiver.check_plans(&context, &mut packet), Err(ProtocolError::UnknownShip));
    assert_eq!(packet.remaining(), 14);
    assert_eq!(receiver, armed_ship(1, 1, 5));
}

#[test]
fn a_plan_that_aims_at_a_missing_slot_is_refused() {
    let context = battle_of(vec![armed_ship(2, 1, 0)]);
    let mut receiver = armed_ship(1, 1, 5);
    let mut packet = InPacket::new(vec![0, 1, 2, 0, 0, 0, 0, 0, 0, 0, 1, 0, 0, 0]);
    assert_eq!(receiver.check_plans(&context, &mut packet), Err(ProtocolError::UnknownModule));
    assert_eq!(target_of(&receiver, 0), None);
    let mut packet = InPacket::new(vec![0, 1, 2, 0, 0, 0, 0, 0, 0, 0, 0, 0, 0, 0]);
    assert_eq!(receiver.check_plans(&context, &mut packet), Ok(()));
    receiver.read_plans(&context, &mut packet);
    assert_eq!(target_of(&receiver, 0), Some((2, 0)));
}

#[test]
fn a_plan_that_the_ship_cannot_afford_is_refused() {
    let context = battle_of(vec![armed_ship(2, 1, 0)]);
    let mut receiver = armed_ship(1, 2, 3);
    let before = receiver.snapshot();
    // two weapons at 2 each, 3 to spend: the second one is too much
    let mut packet = InPacket::new(vec![1, 0, 1, 0]);
    assert_eq!(receiver.check_plans(&context, &mut packet), Err(ProtocolError::PowerMismatch));
    assert_eq!(receiver, before);
    assert_eq!(packet.remaining(), 4);
    // one of them is not
    let mut packet = InPacket::new(vec![0, 0, 1, 0]);
    assert_eq!(receiver.check_plans(&context, &mut packet), Ok(()));
    receiver.read_plans(&context, &mut packet);
    assert!(receiver.modules[1].get_base().powered);
    assert_eq!(receiver.state.power, 1);
}

#[test]
fn a_plan_that_runs_a_wreck_is_refused() {
    let context = battle_of(vec![armed_ship(2, 1, 0)]);
    let mut receiver = armed_ship(1, 1, 5);
    receiver.damage_module(0, 2);
    let mut packet = InPacket::new(vec![1, 0]);
    assert_eq!(receiver.check_plans(&context, &mut packet), Err(ProtocolError::PowerMismatch));
    assert!(!receiver.modules[0].get_base().powered);
}

#[test]
fn an_unreadable_plan_is_reported_before_an_unaffordable_one() {
    let context = battle_of(vec![armed_ship(2, 1, 0)]);
    let receiver = armed_ship(1, 2, 0);
    let mut packet = InPacket::new(vec![1, 0, 1]);
    assert_eq!(receiver.check_plans(&context, &mut packet), Err(ProtocolError::Truncated));
}

#[test]
fn a_battle_reads_the_plans_of_every_ship() {
    let mut sender = battle_of(vec![armed_ship(1, 1, 3), armed_ship(2, 2, 0)]);
    assert!(sender.plan_module(0, 0, true));
    assert!(sender.aim_module(0, 0, Some((2, 1))));
    sender.ships[0].apply_module_plans();
    let mut out = OutPacket::new();
    sender.write_plans(&mut out);
    let bytes = out.into_bytes();
    assert_eq!(
        bytes,
        vec![1, 1, 2, 0, 0, 0, 0, 0, 0, 0, 1, 0, 0, 0, 0, 0, 0, 0]
    );

    let mut receiver = battle_of(vec![armed_ship(1, 1, 3), armed_ship(2, 2, 0)]);
    let mut packet = InPacket::new(bytes.clone());
    assert_eq!(receiver.check_plans(&mut packet), Ok(()));
    assert_eq!(packet.remaining(), 18);
    receiver.read_plans(&mut packet);
    assert_eq!(packet.remaining(), 0);
    assert!(receiver.ships[0].modules[0].get_base().powered);
    assert_eq!(target_of(&receiver.ships[0], 0), Some((2, 1)));
    assert_eq!(receiver.ships[0].state.power, 1);
    assert!(receiver.is_valid());

    // the second ship's plan is cut short: the first ship is not touched either
    let fresh = battle_of(vec![armed_ship(1, 1, 3), armed_ship(2, 2, 0)]);
    let before = fresh.clone();
    let mut packet = InPacket::new(bytes[..17].to_vec());
    assert_eq!(fresh.check_plans(&mut packet), Err(ProtocolError::Truncated));
    assert_eq!(fresh, before);
    assert_eq!(packet.remaining(), 17);
}

#[test]
fn results_hold_nothing_for_weapons() {
    let mut battle = battle_of(vec![armed_ship(1, 2, 0), armed_ship(2, 1, 0)]);
    let before = battle.clone();
    let mut out = OutPacket::new();
    out.write_bool(true);
    battle.write_results(&mut out);
    battle.ships[0].write_results(&mut out);
    battle.ships[0].modules[0].write_results(&mut out);
    let bytes = out.into_bytes();
    assert_eq!(bytes, vec![1]);
    let mut packet = InPacket::new(bytes);
    battle.read_results(&mut packet);
    battle.ships[1].read_results(&mut packet);
    battle.ships[1].modules[0].read_results(&mut packet);
    assert_eq!(packet.remaining(), 1);
    assert_eq!(battle, before);
}

#[test]
fn a_weapon_reads_its_aim_from_the_packet() {
    let context = battle_of(vec![armed_ship(2, 3, 0)]);
    let mut module = ProjectileWeaponModule::new();
    let mut packet = InPacket::new(vec![1, 2, 0, 0, 0, 0, 0, 0, 0, 1, 0, 0, 0, 0, 77]);
    assert_eq!(module.parse_plans(&mut packet), Ok(Some((2, 1))));
    assert_eq!(module.vet_plan(&context, ModulePlan { powered: false, target: Some((2, 1)) }), Ok(()));
    let mut packet = InPacket::new(vec![1, 2, 0, 0, 0, 0, 0, 0, 0, 1, 0, 0, 0, 0, 77]);
    module.read_plans(&context, &mut packet);
    assert_eq!(packet.remaining(), 2);
    match module {
        Module::ProjectileWeapon(weapon) => assert_eq!(weapon.target, Some((2, 1))),
    }
    module.read_plans(&context, &mut packet);
    assert_eq!(packet.remaining(), 1);
    match module {
        Module::ProjectileWeapon(weapon) => assert_eq!(weapon.target, None),
    }
}

#[test]
fn an_aim_is_vetted_against_the_battle() {
    let context = battle_of(vec![armed_ship(2, 3, 0)]);
    let module = ProjectileWeaponModule::new();
    let aimed = |target| ModulePlan { powered: true, target };
    assert_eq!(module.vet_plan(&context, aimed(None)), Ok(()));
    assert_eq!(module.vet_plan(&context, aimed(Some((2, 2)))), Ok(()));
    assert_eq!(module.vet_plan(&context, aimed(Some((2, 3)))), Err(ProtocolError::UnknownModule));
    assert_eq!(module.vet_plan(&context, aimed(Some((3, 0)))), Err(ProtocolError::UnknownShip));
    assert_eq!(
        ProjectileWeaponModule::vet_target(&context, Some((7, 0))),
        Err(ProtocolError::UnknownShip)
    );
    let mut short = InPacket::new(vec![1, 2, 0, 0]);
    assert_eq!(module.parse_plans(&mut short), Err(ProtocolError::Truncated));
    assert_eq!(short.remaining(), 4);
    let mut odd = InPacket::new(vec![4]);
    assert_eq!(module.get_base().parse_plans(&mut odd), Err(ProtocolError::InvalidValue));
    assert_eq!(module.parse_plans(&mut odd), Err(ProtocolError::InvalidValue));
}
