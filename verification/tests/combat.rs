use combat_core::action::{effective_amount, Action, ActionAoe, ActionEffect, ActionRange};
use combat_core::attribute::Attribute;
use combat_core::battle::{ActionError, Battle, Warrior};
use combat_core::map::Tilemap;
use combat_core::position::MapPosition;
use combat_core::turn::CombatantId;

fn attr(value: u32, max: u32) -> Attribute {
    Attribute::new(0, value, max)
}

fn warrior(name: &str, x: u32, y: u32, health: u32, shield: u32, ap: u32, mp: u32) -> Warrior {
    Warrior::new(
        name.to_string(),
        MapPosition::new(x, y),
        attr(health, health.max(1)),
        attr(shield, 100),
        attr(ap, 10),
        attr(mp, 10),
        Vec::new(),
    )
}

fn open_battle(warriors: Vec<Warrior>) -> Battle {
    let map = Tilemap::new(0, 10, 10, 64, 32, &Vec::new());
    Battle::new(map, warriors)
}

fn battle_with_obstacles(warriors: Vec<Warrior>, obstacles: &[(u32, u32)]) -> Battle {
    let cells: Vec<MapPosition> =
        obstacles.iter().map(|&(x, y)| MapPosition::new(x, y)).collect();
    let map = Tilemap::new(0, 10, 10, 64, 32, &cells);
    Battle::new(map, warriors)
}

fn simple_action(cost: u32, max_range: u32, check_los: bool, effects: Vec<ActionEffect>) -> Action {
    Action {
        name: "strike".to_string(),
        icon_key: String::new(),
        animation_key: String::new(),
        cost,
        aoe: ActionAoe::Cell,
        range: ActionRange::Around { min_distance: 0, max_distance: max_range, check_los },
        effects,
    }
}

fn plain_damage(amount: u32) -> ActionEffect {
    ActionEffect::Damage { amount, erode: 0, crit_mult: 100, crit_chance: 0 }
}

#[test]
fn damage_is_absorbed_by_shield_before_health() {
    // Shield 10, health 50: 15 damage empties the shield and 5 overflow
    // into health.
    let actor = warrior("a", 2, 2, 50, 0, 6, 3);
    let target = warrior("b", 3, 2, 50, 10, 6, 3);
    let mut battle = open_battle(vec![actor, target]);
    let action = simple_action(0, 5, false, vec![plain_damage(15)]);
    let r = battle.execute(CombatantId(0), &action, MapPosition::new(3, 2));
    assert!(r.is_ok());
    assert_eq!(battle.combatants[1].shield.value(), 0);
    assert_eq!(battle.combatants[1].health.value(), 45);
}

#[test]
fn full_crit_chance_always_scales_the_damage() {
    // With a guaranteed critical hit the effective amount is exact and
    // independent of the generator's stream.
    for _ in 0..10 {
        let actor = warrior("a", 2, 2, 50, 0, 6, 3);
        let target = warrior("b", 3, 2, 50, 0, 6, 3);
        let mut battle = open_battle(vec![actor, target]);
        let action = simple_action(
            0,
            5,
            false,
            vec![ActionEffect::Damage { amount: 10, erode: 0, crit_mult: 200, crit_chance: 100 }],
        );
        let r = battle.execute(CombatantId(0), &action, MapPosition::new(3, 2));
        assert!(r.is_ok());
        assert_eq!(battle.combatants[1].health.value(), 30);
    }
}

#[test]
fn effective_amount_rounds_the_critical_scale() {
    assert_eq!(effective_amount(10, 150, 100, 0), 15);
    assert_eq!(effective_amount(5, 150, 100, 42), 8);
    assert_eq!(effective_amount(10, 150, 0, 42), 10);
    assert_eq!(effective_amount(10, 150, 50, 49), 15);
    assert_eq!(effective_amount(10, 150, 50, 50), 10);
}

#[test]
fn end_to_end_attack_spends_cost_and_hurts_target() {
    // Actor at (2,2) with 6 action points, a cost-3 ranged strike for 20
    // against the target one cell east.
    let actor = warrior("a", 2, 2, 50, 0, 6, 3);
    let target = warrior("b", 3, 2, 50, 0, 6, 3);
    let mut battle = open_battle(vec![actor, target]);
    let action = simple_action(3, 2, true, vec![plain_damage(20)]);
    let summary = battle
        .execute(CombatantId(0), &action, MapPosition::new(3, 2))
        .expect("the attack is valid");
    assert_eq!(battle.combatants[0].action_points.value(), 3);
    assert_eq!(battle.combatants[1].health.value(), 30);
    assert_eq!(summary.targets, vec![CombatantId(1)]);
    assert!(summary.killed.is_empty());
}

#[test]
fn insufficient_action_points_refuse_without_change() {
    let actor = warrior("a", 2, 2, 50, 0, 2, 3);
    let target = warrior("b", 3, 2, 50, 0, 6, 3);
    let mut battle = open_battle(vec![actor, target]);
    let action = simple_action(3, 2, false, vec![plain_damage(20)]);
    let r = battle.execute(CombatantId(0), &action, MapPosition::new(3, 2));
    assert_eq!(r.unwrap_err(), ActionError::InsufficientActionPoints);
    assert_eq!(battle.combatants[0].action_points.value(), 2);
    assert_eq!(battle.combatants[1].health.value(), 50);
}

#[test]
fn out_of_range_refuses_without_change() {
    let actor = warrior("a", 2, 2, 50, 0, 6, 3);
    let target = warrior("b", 8, 2, 50, 0, 6, 3);
    let mut battle = open_battle(vec![actor, target]);
    let action = simple_action(1, 2, false, vec![plain_damage(20)]);
    let r = battle.execute(CombatantId(0), &action, MapPosition::new(8, 2));
    assert_eq!(r.unwrap_err(), ActionError::OutOfRange);
    assert_eq!(battle.combatants[0].action_points.value(), 6);
}

#[test]
fn blocked_line_of_sight_refuses_without_change() {
    let actor = warrior("a", 2, 2, 50, 0, 6, 3);
    let target = warrior("b", 6, 2, 50, 0, 6, 3);
    let mut battle = battle_with_obstacles(vec![actor, target], &[(4, 2)]);
    let action = simple_action(1, 8, true, vec![plain_damage(20)]);
    let r = battle.execute(CombatantId(0), &action, MapPosition::new(6, 2));
    assert_eq!(r.unwrap_err(), ActionError::Blocked);
    let without_los = simple_action(1, 8, false, vec![plain_damage(20)]);
    let r2 = battle.execute(CombatantId(0), &without_los, MapPosition::new(6, 2));
    assert!(r2.is_ok());
    assert_eq!(battle.combatants[1].health.value(), 30);
}

#[test]
fn push_stops_before_the_obstacle_and_deals_collision_damage() {
    // Target at (5,5), obstacle at (7,5), pushed east by three: it stops at
    // (6,5) and takes twenty damage for the one step that stayed unwalked
    // beyond the blocked cell.
    let actor = warrior("a", 4, 5, 50, 0, 6, 3);
    let target = warrior("b", 5, 5, 50, 0, 6, 3);
    let mut battle = battle_with_obstacles(vec![actor, target], &[(7, 5)]);
    let action = simple_action(0, 2, false, vec![ActionEffect::Push { distance: 3 }]);
    let r = battle.execute(CombatantId(0), &action, MapPosition::new(5, 5));
    assert!(r.is_ok());
    assert_eq!(battle.combatants[1].position, MapPosition::new(6, 5));
    assert_eq!(battle.combatants[1].health.value(), 30);
    // The fixed erosion factor of collisions is ten percent: round(2.0).
    assert_eq!(battle.combatants[1].health.max(), 48);
}

#[test]
fn unobstructed_push_moves_the_full_distance_harmlessly() {
    let actor = warrior("a", 4, 5, 50, 0, 6, 3);
    let target = warrior("b", 5, 5, 50, 0, 6, 3);
    let mut battle = open_battle(vec![actor, target]);
    let action = simple_action(0, 2, false, vec![ActionEffect::Push { distance: 3 }]);
    battle.execute(CombatantId(0), &action, MapPosition::new(5, 5)).expect("valid");
    assert_eq!(battle.combatants[1].position, MapPosition::new(8, 5));
    assert_eq!(battle.combatants[1].health.value(), 50);
}

#[test]
fn diagonal_push_does_nothing() {
    let actor = warrior("a", 4, 4, 50, 0, 6, 3);
    let target = warrior("b", 5, 5, 50, 0, 6, 3);
    let mut battle = open_battle(vec![actor, target]);
    let action = simple_action(0, 3, false, vec![ActionEffect::Push { distance: 3 }]);
    battle.execute(CombatantId(0), &action, MapPosition::new(5, 5)).expect("valid");
    assert_eq!(battle.combatants[1].position, MapPosition::new(5, 5));
}

#[test]
fn heal_and_shield_raise_their_attributes() {
    let actor = warrior("a", 2, 2, 50, 0, 6, 3);
    let mut hurt = warrior("b", 3, 2, 50, 0, 6, 3);
    hurt.health.drop(30);
    let mut battle = open_battle(vec![actor, hurt]);
    let action = simple_action(
        0,
        5,
        false,
        vec![ActionEffect::Heal { amount: 12 }, ActionEffect::Shield { amount: 7 }],
    );
    battle.execute(CombatantId(0), &action, MapPosition::new(3, 2)).expect("valid");
    assert_eq!(battle.combatants[1].health.value(), 32);
    assert_eq!(battle.combatants[1].shield.value(), 7);
}

#[test]
fn stolen_action_points_move_exactly_what_was_removed() {
    let mut actor = warrior("a", 2, 2, 50, 0, 6, 3);
    actor.action_points.drop(2);
    let target = warrior("b", 3, 2, 50, 0, 3, 3);
    let mut battle = open_battle(vec![actor, target]);
    let action =
        simple_action(0, 5, false, vec![ActionEffect::StealActionPoints { amount: 5 }]);
    battle.execute(CombatantId(0), &action, MapPosition::new(3, 2)).expect("valid");
    // The target only had three to give; the actor gains exactly those.
    assert_eq!(battle.combatants[1].action_points.value(), 0);
    assert_eq!(battle.combatants[0].action_points.value(), 7);
}

#[test]
fn removed_movement_points_discard_the_remainder() {
    let actor = warrior("a", 2, 2, 50, 0, 6, 3);
    let target = warrior("b", 3, 2, 50, 0, 6, 2);
    let mut battle = open_battle(vec![actor, target]);
    let action =
        simple_action(0, 5, false, vec![ActionEffect::RemoveMovementPoints { amount: 5 }]);
    battle.execute(CombatantId(0), &action, MapPosition::new(3, 2)).expect("valid");
    assert_eq!(battle.combatants[1].movement_points.value(), 0);
    assert_eq!(battle.combatants[0].movement_points.value(), 3);
}

#[test]
fn teleport_self_moves_only_onto_free_cells() {
    let actor = warrior("a", 2, 2, 50, 0, 6, 3);
    let bystander = warrior("b", 5, 5, 50, 0, 6, 3);
    let mut battle = open_battle(vec![actor, bystander]);
    let action = simple_action(0, 9, false, vec![ActionEffect::TeleportSelf]);
    battle.execute(CombatantId(0), &action, MapPosition::new(5, 5)).expect("valid");
    assert_eq!(battle.combatants[0].position, MapPosition::new(2, 2));
    battle.execute(CombatantId(0), &action, MapPosition::new(4, 4)).expect("valid");
    assert_eq!(battle.combatants[0].position, MapPosition::new(4, 4));
}

#[test]
fn teleport_switch_swaps_with_the_occupant() {
    let actor = warrior("a", 2, 2, 50, 0, 6, 3);
    let other = warrior("b", 5, 5, 50, 0, 6, 3);
    let mut battle = open_battle(vec![actor, other]);
    let action = simple_action(0, 9, false, vec![ActionEffect::TeleportSwitch]);
    battle.execute(CombatantId(0), &action, MapPosition::new(5, 5)).expect("valid");
    assert_eq!(battle.combatants[0].position, MapPosition::new(5, 5));
    assert_eq!(battle.combatants[1].position, MapPosition::new(2, 2));
}

#[test]
fn zone_aoe_hits_every_combatant_in_the_band() {
    let actor = warrior("a", 0, 0, 50, 0, 6, 3);
    let near = warrior("b", 4, 4, 50, 0, 6, 3);
    let adjacent = warrior("c", 4, 5, 50, 0, 6, 3);
    let far = warrior("d", 9, 9, 50, 0, 6, 3);
    let mut battle = open_battle(vec![actor, near, adjacent, far]);
    let action = Action {
        name: "blast".to_string(),
        icon_key: String::new(),
        animation_key: String::new(),
        cost: 0,
        aoe: ActionAoe::Zone { min_distance: 0, max_distance: 1 },
        range: ActionRange::Around { min_distance: 0, max_distance: 20, check_los: false },
        effects: vec![plain_damage(5)],
    };
    let summary = battle
        .execute(CombatantId(0), &action, MapPosition::new(4, 4))
        .expect("valid");
    assert_eq!(summary.targets, vec![CombatantId(1), CombatantId(2)]);
    assert_eq!(battle.combatants[1].health.value(), 45);
    assert_eq!(battle.combatants[2].health.value(), 45);
    assert_eq!(battle.combatants[3].health.value(), 50);
}

#[test]
fn cross_aoe_stays_on_the_target_lines() {
    let map = Tilemap::new(0, 10, 10, 64, 32, &Vec::new());
    let aoe = ActionAoe::Cross { min_distance: 0, max_distance: 2 };
    let cells = aoe.compute_hit_positions(&MapPosition::new(4, 4), &map);
    assert!(cells.contains(&MapPosition::new(4, 4)));
    assert!(cells.contains(&MapPosition::new(6, 4)));
    assert!(cells.contains(&MapPosition::new(4, 2)));
    assert!(!cells.contains(&MapPosition::new(5, 5)));
    assert_eq!(cells.len(), 9);
}

#[test]
fn aoe_excludes_obstacle_cells() {
    let cells_map: Vec<MapPosition> = vec![MapPosition::new(5, 4)];
    let map = Tilemap::new(0, 10, 10, 64, 32, &cells_map);
    let aoe = ActionAoe::Zone { min_distance: 0, max_distance: 1 };
    let cells = aoe.compute_hit_positions(&MapPosition::new(4, 4), &map);
    assert!(cells.contains(&MapPosition::new(4, 4)));
    assert!(cells.contains(&MapPosition::new(3, 4)));
    assert!(!cells.contains(&MapPosition::new(5, 4)));
}

#[test]
fn line_range_demands_a_shared_row_or_column() {
    let range = ActionRange::Line { min_distance: 1, max_distance: 4, check_los: false };
    let from = MapPosition::new(2, 2);
    assert!(range.can_reach(&from, &MapPosition::new(5, 2)));
    assert!(range.can_reach(&from, &MapPosition::new(2, 5)));
    assert!(!range.can_reach(&from, &MapPosition::new(4, 3)));
    assert!(!range.can_reach(&from, &MapPosition::new(2, 2)));
}

#[test]
fn diagonal_range_demands_equal_offsets() {
    let range = ActionRange::Diagonal { min_distance: 1, max_distance: 6, check_los: false };
    let from = MapPosition::new(2, 2);
    assert!(range.can_reach(&from, &MapPosition::new(4, 4)));
    assert!(range.can_reach(&from, &MapPosition::new(0, 4)));
    assert!(!range.can_reach(&from, &MapPosition::new(4, 3)));
}

#[test]
fn lethal_damage_marks_death_and_leaves_the_turn_order() {
    let actor = warrior("a", 2, 2, 50, 0, 6, 3);
    let frail = warrior("b", 3, 2, 10, 0, 6, 3);
    let mut battle = open_battle(vec![actor, frail]);
    let action = simple_action(0, 5, false, vec![plain_damage(25)]);
    let summary = battle
        .execute(CombatantId(0), &action, MapPosition::new(3, 2))
        .expect("valid");
    assert_eq!(summary.killed, vec![CombatantId(1)]);
    assert!(!battle.combatants[1].alive);
    assert_eq!(battle.turn.order, vec![CombatantId(0)]);
}

#[test]
fn damage_over_time_ticks_at_turn_start_until_exhausted() {
    let actor = warrior("a", 2, 2, 50, 0, 6, 3);
    let target = warrior("b", 3, 2, 50, 0, 6, 3);
    let mut battle = open_battle(vec![actor, target]);
    let action = simple_action(
        0,
        5,
        false,
        vec![ActionEffect::DamageOverTime { amount: 5, erode: 0, duration: 2 }],
    );
    battle.execute(CombatantId(0), &action, MapPosition::new(3, 2)).expect("valid");
    assert_eq!(battle.combatants[1].health.value(), 50);
    assert_eq!(battle.combatants[1].active_effects.len(), 1);
    battle.on_turn_started(CombatantId(1));
    assert_eq!(battle.combatants[1].health.value(), 45);
    assert_eq!(battle.combatants[1].active_effects.len(), 1);
    battle.on_turn_started(CombatantId(1));
    assert_eq!(battle.combatants[1].health.value(), 40);
    assert!(battle.combatants[1].active_effects.is_empty());
    battle.on_turn_started(CombatantId(1));
    assert_eq!(battle.combatants[1].health.value(), 40);
}

#[test]
fn turn_end_restores_action_and_movement_points() {
    let mut actor = warrior("a", 2, 2, 50, 0, 6, 3);
    actor.action_points.drop(4);
    actor.movement_points.drop(2);
    let mut battle = open_battle(vec![actor]);
    battle.on_turn_ended(CombatantId(0));
    assert_eq!(battle.combatants[0].action_points.value(), 10);
    assert_eq!(battle.combatants[0].movement_points.value(), 10);
}

#[test]
fn next_turn_cycles_and_ticks() {
    let a = warrior("a", 2, 2, 50, 0, 6, 3);
    let b = warrior("b", 3, 2, 50, 0, 6, 3);
    let mut battle = open_battle(vec![a, b]);
    let (ended, started) = battle.next_turn().expect("two combatants");
    assert_eq!(ended, CombatantId(0));
    assert_eq!(started, CombatantId(1));
    assert_eq!(battle.turn.order_index, 1);
    // The ended combatant got its points refreshed.
    assert_eq!(battle.combatants[0].action_points.value(), 10);
}

#[test]
fn movement_follows_the_shortest_path_and_spends_points() {
    // The obstacle at (1,0) forces a detour of cost four.
    let mut mover = warrior("a", 0, 0, 50, 0, 6, 3);
    mover.movement_points.rise(1);
    let mut battle = battle_with_obstacles(vec![mover], &[(1, 0)]);
    let r = battle.move_combatant(CombatantId(0), &MapPosition::new(2, 0));
    let (path, cost) = r.expect("reachable within four points");
    assert_eq!(cost, 4);
    assert_eq!(path.len(), 5);
    assert_eq!(battle.combatants[0].position, MapPosition::new(2, 0));
    assert_eq!(battle.combatants[0].movement_points.value(), 0);
}

#[test]
fn movement_beyond_the_budget_is_refused() {
    let mover = warrior("a", 0, 0, 50, 0, 6, 3);
    let mut battle = open_battle(vec![mover]);
    assert!(battle.move_combatant(CombatantId(0), &MapPosition::new(4, 4)).is_none());
    assert_eq!(battle.combatants[0].position, MapPosition::new(0, 0));
    assert_eq!(battle.combatants[0].movement_points.value(), 3);
}

#[test]
fn effects_apply_in_declared_order() {
    // A heal after lethal damage revives the value before the death sweep:
    // the order of effects is the declared one.
    let actor = warrior("a", 2, 2, 50, 0, 6, 3);
    let target = warrior("b", 3, 2, 30, 0, 6, 3);
    let mut battle = open_battle(vec![actor, target]);
    let action = simple_action(
        0,
        5,
        false,
        vec![plain_damage(30), ActionEffect::Heal { amount: 10 }],
    );
    let summary = battle
        .execute(CombatantId(0), &action, MapPosition::new(3, 2))
        .expect("valid");
    assert_eq!(battle.combatants[1].health.value(), 10);
    assert!(summary.killed.is_empty());
    assert!(battle.combatants[1].alive);
}

#[test]
fn damage_with_erosion_lowers_the_health_ceiling() {
    let actor = warrior("a", 2, 2, 50, 0, 6, 3);
    let target = warrior("b", 3, 2, 50, 0, 6, 3);
    let mut battle = open_battle(vec![actor, target]);
    let action = simple_action(
        0,
        5,
        false,
        vec![ActionEffect::Damage { amount: 20, erode: 25, crit_mult: 100, crit_chance: 0 }],
    );
    battle.execute(CombatantId(0), &action, MapPosition::new(3, 2)).expect("valid");
    assert_eq!(battle.combatants[1].health.value(), 30);
    assert_eq!(battle.combatants[1].health.max(), 45);
}

#[test]
fn shielded_damage_erodes_only_the_overflow() {
    // Erosion keys off the post-shield remainder: a full absorption erodes
    // nothing.
    let actor = warrior("a", 2, 2, 50, 0, 6, 3);
    let target = warrior("b", 3, 2, 50, 30, 6, 3);
    let mut battle = open_battle(vec![actor, target]);
    let action = simple_action(
        0,
        5,
        false,
        vec![ActionEffect::Damage { amount: 20, erode: 50, crit_mult: 100, crit_chance: 0 }],
    );
    battle.execute(CombatantId(0), &action, MapPosition::new(3, 2)).expect("valid");
    assert_eq!(battle.combatants[1].shield.value(), 10);
    assert_eq!(battle.combatants[1].health.value(), 50);
    assert_eq!(battle.combatants[1].health.max(), 50);
}

#[test]
fn stolen_movement_points_transfer_and_cap_at_max() {
    let actor = warrior("a", 2, 2, 50, 0, 6, 9);
    let target = warrior("b", 3, 2, 50, 0, 6, 5);
    let mut battle = open_battle(vec![actor, target]);
    let action =
        simple_action(0, 5, false, vec![ActionEffect::StealMovementPoints { amount: 4 }]);
    battle.execute(CombatantId(0), &action, MapPosition::new(3, 2)).expect("valid");
    assert_eq!(battle.combatants[1].movement_points.value(), 1);
    // The actor's gain clamps at its own maximum of ten.
    assert_eq!(battle.combatants[0].movement_points.value(), 10);
}

#[test]
fn removed_action_points_discard_the_remainder() {
    let actor = warrior("a", 2, 2, 50, 0, 6, 3);
    let target = warrior("b", 3, 2, 50, 0, 2, 3);
    let mut battle = open_battle(vec![actor, target]);
    let action =
        simple_action(0, 5, false, vec![ActionEffect::RemoveActionPoints { amount: 5 }]);
    battle.execute(CombatantId(0), &action, MapPosition::new(3, 2)).expect("valid");
    assert_eq!(battle.combatants[1].action_points.value(), 0);
    assert_eq!(battle.combatants[0].action_points.value(), 6);
}

#[test]
fn teleport_switch_without_an_occupant_is_a_no_op() {
    let actor = warrior("a", 2, 2, 50, 0, 6, 3);
    let other = warrior("b", 5, 5, 50, 0, 6, 3);
    let mut battle = open_battle(vec![actor, other]);
    let action = simple_action(0, 9, false, vec![ActionEffect::TeleportSwitch]);
    battle.execute(CombatantId(0), &action, MapPosition::new(4, 4)).expect("valid");
    assert_eq!(battle.combatants[0].position, MapPosition::new(2, 2));
    assert_eq!(battle.combatants[1].position, MapPosition::new(5, 5));
}

#[test]
fn nothing_effect_changes_nothing() {
    let actor = warrior("a", 2, 2, 50, 0, 6, 3);
    let target = warrior("b", 3, 2, 50, 0, 6, 3);
    let mut battle = open_battle(vec![actor, target]);
    let action = simple_action(1, 5, false, vec![ActionEffect::Nothing]);
    let summary = battle
        .execute(CombatantId(0), &action, MapPosition::new(3, 2))
        .expect("valid");
    assert_eq!(battle.combatants[0].action_points.value(), 5);
    assert_eq!(battle.combatants[1].health.value(), 50);
    assert_eq!(summary.targets, vec![CombatantId(1)]);
}

#[test]
fn a_fatal_tick_removes_the_combatant_at_turn_start() {
    let actor = warrior("a", 2, 2, 50, 0, 6, 3);
    let frail = warrior("b", 3, 2, 4, 0, 6, 3);
    let mut battle = open_battle(vec![actor, frail]);
    let action = simple_action(
        0,
        5,
        false,
        vec![ActionEffect::DamageOverTime { amount: 5, erode: 0, duration: 3 }],
    );
    battle.execute(CombatantId(0), &action, MapPosition::new(3, 2)).expect("valid");
    battle.on_turn_started(CombatantId(1));
    assert!(!battle.combatants[1].alive);
    assert_eq!(battle.combatants[1].health.value(), 0);
    assert_eq!(battle.turn.order, vec![CombatantId(0)]);
}

#[test]
fn next_turn_wraps_and_counts_cycles() {
    let a = warrior("a", 2, 2, 50, 0, 6, 3);
    let b = warrior("b", 3, 2, 50, 0, 6, 3);
    let mut battle = open_battle(vec![a, b]);
    battle.next_turn().expect("turn passes");
    let (ended, started) = battle.next_turn().expect("turn wraps");
    assert_eq!(ended, CombatantId(1));
    assert_eq!(started, CombatantId(0));
    assert_eq!(battle.turn.current, 1);
}
