use space_battle::battle_state::BattleContext;
use space_battle::module::proj_weapon::{
    DamageEvent, ProjectilePhase, ProjectileWeaponModule, HIT_DELAY, OFFSCREEN_DELAY,
    STAGGER_TICKS,
};
use space_battle::module::Module;
use space_battle::ship::Ship;
use space_battle::sim::{simulate_round, ModuleRef, ScheduledEvent, SimEvent, SimEvents};

fn weapons_ship(id: u64, weapons: usize, power: u8) -> Ship {
    let mut ship = Ship::new(id);
    for _ in 0..weapons {
        assert!(ship.add_module(ProjectileWeaponModule::new()));
    }
    ship.state.add_power(power);
    ship
}

fn duel(attacker_weapons: usize, attacker_power: u8, enemy_weapons: usize) -> BattleContext {
    let mut context = BattleContext::new();
    assert!(context.add_ship(weapons_ship(1, attacker_weapons, attacker_power)));
    assert!(context.add_ship(weapons_ship(2, enemy_weapons, 0)));
    context
}

fn weapon_at(context: &BattleContext, ship: usize, slot: usize) -> ProjectileWeaponModule {
    match context.ships[ship].modules[slot] {
        Module::ProjectileWeapon(weapon) => weapon,
    }
}

fn enemy_hp(context: &BattleContext, slot: usize) -> u8 {
    context.ships[1].modules[slot].get_base().get_hp()
}

fn hit(ship: u64, module: u32, damage: u8) -> SimEvent {
    SimEvent::Damage(DamageEvent::new(ship, module, damage))
}

#[test]
fn the_stagger_is_ten_ticks_a_slot() {
    assert_eq!(STAGGER_TICKS, 10);
    assert_eq!(OFFSCREEN_DELAY, 20);
    assert_eq!(HIT_DELAY, 40);
}

#[test]
fn one_weapon_hits_at_tick_forty_and_not_before() {
    // one weapon of cost 2 in slot 0, 3 to spend, aimed at slot 2 of the enemy
    let mut context = duel(1, 3, 3);
    assert!(context.plan_module(0, 0, true));
    assert!(context.aim_module(0, 0, Some((2, 2))));
    context.ships[0].apply_module_plans();
    assert!(context.ships[0].modules[0].get_base().powered);
    assert_eq!(context.ships[0].state.power, 1);

    let mut events = SimEvents::new();
    context.before_simulation(&mut events);
    assert_eq!(events.len(), 1);
    assert_eq!(
        events.get(0),
        ScheduledEvent {
            tick: 40,
            source: ModuleRef { ship: 1, slot: 0 },
            event: hit(2, 2, 1),
        }
    );
    let shot = weapon_at(&context, 0, 0).projectile;
    assert_eq!((shot.fire_tick, shot.offscreen_tick, shot.hit_tick), (0, 20, 40));

    for tick in 0..40 {
        assert!(events.apply_tick(&mut context, tick));
        assert_eq!(enemy_hp(&context, 2), 3);
    }
    assert!(events.apply_tick(&mut context, 40));
    assert_eq!(enemy_hp(&context, 2), 2);
    assert_eq!(enemy_hp(&context, 0), 3);
    assert_eq!(enemy_hp(&context, 1), 3);
    assert_eq!(context.ships[1].state.total_module_hp, 8);
    assert_eq!(context.ships[1].state.get_hp(), 4);
    events.apply_through(&mut context, 99);
    assert_eq!(enemy_hp(&context, 2), 2);
    context.after_simulation();
    assert!(context.is_valid());
}

#[test]
fn two_weapons_hit_ten_ticks_apart() {
    let mut context = duel(2, 4, 1);
    for slot in 0..2 {
        assert!(context.plan_module(0, slot, true));
        assert!(context.aim_module(0, slot, Some((2, 0))));
    }
    context.ships[0].apply_module_plans();
    let mut events = SimEvents::new();
    context.before_simulation(&mut events);
    assert_eq!(events.len(), 2);
    assert_eq!(events.get(0).tick, 40);
    assert_eq!(events.get(1).tick, 50);
    assert_eq!(events.get(1).tick - events.get(0).tick, STAGGER_TICKS);
    assert_eq!(events.get(1).source, ModuleRef { ship: 1, slot: 1 });
    assert_eq!(weapon_at(&context, 0, 1).projectile.fire_tick, 10);
    assert_eq!(weapon_at(&context, 0, 1).projectile.offscreen_tick, 30);

    events.apply_through(&mut context, 39);
    assert_eq!(enemy_hp(&context, 0), 3);
    events.apply_through(&mut context, 49);
    assert_eq!(enemy_hp(&context, 0), 2);
    events.apply_through(&mut context, 50);
    assert_eq!(enemy_hp(&context, 0), 1);
    assert_eq!(context.ships[1].state.total_module_hp, 1);
    assert_eq!(context.ships[1].state.get_hp(), 0);
}

#[test]
fn each_hit_is_clamped_by_what_is_left() {
    let mut context = duel(2, 4, 2);
    for slot in 0..2 {
        assert!(context.aim_module(0, slot, Some((2, 0))));
        match &mut context.ships[0].modules[slot as usize] {
            Module::ProjectileWeapon(weapon) => weapon.projectile.damage = 2,
        }
    }
    let mut events = SimEvents::new();
    context.before_simulation(&mut events);
    events.apply_through(&mut context, 40);
    assert_eq!(enemy_hp(&context, 0), 1);
    assert_eq!(context.ships[1].state.total_module_hp, 4);
    events.apply_through(&mut context, 50);
    assert_eq!(enemy_hp(&context, 0), 0);
    assert_eq!(enemy_hp(&context, 1), 3);
    assert_eq!(context.ships[1].state.total_module_hp, 3);
    assert_eq!(context.ships[1].state.get_hp(), 1);
}

#[test]
fn a_weapon_without_a_target_schedules_nothing() {
    let mut context = duel(2, 4, 1);
    assert!(context.plan_module(0, 0, true));
    context.ships[0].apply_module_plans();
    assert!(context.aim_module(0, 1, Some((2, 0))));
    let before = weapon_at(&context, 0, 0);
    let mut events = SimEvents::new();
    context.before_simulation(&mut events);
    assert_eq!(events.len(), 1);
    assert_eq!(events.get(0).tick, 50);
    assert_eq!(weapon_at(&context, 0, 0), before);
}

#[test]
fn ships_schedule_in_the_order_of_the_battle() {
    let mut context = duel(1, 0, 2);
    assert!(context.aim_module(1, 1, Some((1, 0))));
    assert!(context.aim_module(1, 0, Some((1, 0))));
    assert!(context.aim_module(0, 0, Some((2, 1))));
    let mut events = SimEvents::new();
    context.before_simulation(&mut events);
    assert_eq!(events.len(), 3);
    assert_eq!(events.get(0).source, ModuleRef { ship: 1, slot: 0 });
    assert_eq!(events.get(1).source, ModuleRef { ship: 2, slot: 0 });
    assert_eq!(events.get(2).source, ModuleRef { ship: 2, slot: 1 });
    assert_eq!(events.get(2).tick, 50);
}

#[test]
fn a_projectile_goes_through_its_phases() {
    let mut context = duel(3, 0, 1);
    assert!(context.aim_module(0, 2, Some((2, 0))));
    let mut events = SimEvents::new();
    context.before_simulation(&mut events);
    let shot = weapon_at(&context, 0, 2).projectile;
    assert_eq!((shot.fire_tick, shot.offscreen_tick, shot.hit_tick), (20, 40, 60));
    assert_eq!(shot.phase, ProjectilePhase::FireToOffscreen);
    assert_eq!(shot.phase_at(0), None);
    assert_eq!(shot.phase_at(19), None);
    assert_eq!(shot.phase_at(20), Some(ProjectilePhase::FireToOffscreen));
    assert_eq!(shot.phase_at(39), Some(ProjectilePhase::FireToOffscreen));
    assert_eq!(shot.phase_at(40), Some(ProjectilePhase::OffscreenToTarget));
    assert_eq!(shot.phase_at(59), Some(ProjectilePhase::OffscreenToTarget));
    assert_eq!(shot.phase_at(60), Some(ProjectilePhase::Detonate));
    assert_eq!(shot.phase_at(1000), Some(ProjectilePhase::Detonate));
}

#[test]
fn what_is_scheduled_for_a_tick_is_applied_in_the_order_scheduled() {
    let mut context = duel(1, 0, 1);
    context.ships[1].state.add_shields(1);
    context.ships[1].state.shields = 1;
    let mut events = SimEvents::new();
    // first a hit of 3 that the shields take, then a hit of 1 on the module;
    // the other way round the module would have lost all its health
    assert!(events.create_adder(ModuleRef { ship: 1, slot: 0 }).add(5, hit(2, 0, 3)));
    assert!(events.create_adder(ModuleRef { ship: 1, slot: 0 }).add(7, hit(2, 0, 1)));
    assert!(events.create_adder(ModuleRef { ship: 1, slot: 0 }).add(5, hit(2, 0, 1)));
    assert!(events.apply_tick(&mut context, 5));
    assert_eq!(context.ships[1].state.shields, 0);
    assert_eq!(enemy_hp(&context, 0), 2);
    assert!(events.apply_tick(&mut context, 7));
    assert_eq!(enemy_hp(&context, 0), 1);
}

#[test]
fn only_the_future_can_be_scheduled_and_applied() {
    let mut context = duel(1, 0, 1);
    let mut events = SimEvents::new();
    assert_eq!(events.last_applied(), None);
    {
        let mut adder = events.create_adder(ModuleRef { ship: 1, slot: 0 });
        assert!(adder.add(0, hit(2, 0, 1)));
        assert!(adder.add(3, hit(2, 0, 1)));
    }
    assert!(events.apply_tick(&mut context, 3));
    assert_eq!(events.last_applied(), Some(3));
    // tick 0 was passed over, and stays so
    assert_eq!(enemy_hp(&context, 0), 2);
    assert!(!events.apply_tick(&mut context, 0));
    assert!(!events.apply_tick(&mut context, 3));
    assert_eq!(enemy_hp(&context, 0), 2);
    {
        let mut adder = events.create_adder(ModuleRef { ship: 1, slot: 0 });
        assert!(!adder.add(3, hit(2, 0, 1)));
        assert!(!adder.add(2, hit(2, 0, 1)));
        assert!(adder.add(4, hit(2, 0, 1)));
    }
    assert_eq!(events.len(), 3);
    events.apply_through(&mut context, 2);
    assert_eq!(events.last_applied(), Some(3));
    events.apply_through(&mut context, 10);
    assert_eq!(events.last_applied(), Some(10));
    assert_eq!(enemy_hp(&context, 0), 1);
}

#[test]
fn an_event_without_a_target_changes_nothing() {
    let mut context = duel(1, 0, 1);
    let before = context.clone();
    assert!(!hit(3, 0, 1).apply(&mut context));
    assert!(!hit(2, 1, 1).apply(&mut context));
    assert!(!DamageEvent::new(2, 9, 1).apply(&mut context));
    assert_eq!(context, before);
    assert!(hit(2, 0, 1).apply(&mut context));
    assert_eq!(enemy_hp(&context, 0), 2);
}

#[test]
fn the_steps_of_a_replay_do_not_change_its_outcome() {
    let mut start = duel(3, 6, 3);
    for slot in 0..3 {
        assert!(start.plan_module(0, slot, true));
        assert!(start.aim_module(0, slot, Some((2, slot))));
        assert!(start.aim_module(1, slot, Some((1, 0))));
    }
    start.ships[0].apply_module_plans();

    let mut at_once = start.clone();
    simulate_round(&mut at_once);

    for steps in [vec![99], vec![0, 1, 2, 50, 98, 99], vec![39, 40, 41, 99], vec![60, 10, 99]] {
        let mut context = start.clone();
        let mut events = SimEvents::new();
        context.before_simulation(&mut events);
        for tick in steps {
            events.apply_through(&mut context, tick);
        }
        context.after_simulation();
        assert_eq!(context, at_once);
    }
    // the attacker's first weapon took three hits: it is off and its power is back
    assert!(!at_once.ships[0].modules[0].get_base().powered);
    assert_eq!(at_once.ships[0].modules[0].get_base().get_hp(), 0);
    assert_eq!(at_once.ships[0].state.power, 2);
    assert_eq!(at_once.ships[1].state.total_module_hp, 6);
}

#[test]
fn a_weapon_in_a_late_slot_fires_after_the_round() {
    let mut context = duel(7, 0, 1);
    assert!(context.aim_module(0, 5, Some((2, 0))));
    assert!(context.aim_module(0, 6, Some((2, 0))));
    simulate_round(&mut context);
    // slot 5 hits at tick 90, slot 6 would hit at tick 100
    assert_eq!(enemy_hp(&context, 0), 2);
    assert_eq!(weapon_at(&context, 0, 6).projectile.hit_tick, 100);
}
