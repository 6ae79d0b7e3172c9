use combat_core::turn::{CombatantId, Turn};

fn turn_of(n: usize) -> Turn {
    let order: Vec<CombatantId> = (0..n).map(CombatantId).collect();
    Turn { current: 0, order, order_index: 0 }
}

#[test]
fn set_next_walks_the_order() {
    let mut t = turn_of(3);
    let (ended, started) = t.set_next();
    assert_eq!(ended, CombatantId(0));
    assert_eq!(started, CombatantId(1));
    assert_eq!(t.order_index, 1);
    assert_eq!(t.current, 0);
}

#[test]
fn full_cycle_returns_to_start_and_bumps_turn_number() {
    let mut t = turn_of(4);
    for _ in 0..4 {
        t.set_next();
    }
    assert_eq!(t.order_index, 0);
    assert_eq!(t.current, 1);
}

#[test]
fn wrap_fires_exactly_on_the_wrap() {
    let mut t = turn_of(3);
    t.set_next();
    t.set_next();
    assert_eq!(t.current, 0);
    let (ended, started) = t.set_next();
    assert_eq!(ended, CombatantId(2));
    assert_eq!(started, CombatantId(0));
    assert_eq!(t.current, 1);
}

#[test]
fn current_and_peek_report_the_cursor() {
    let mut t = turn_of(3);
    assert_eq!(t.get_current_warrior_entity(), Some(CombatantId(0)));
    assert_eq!(t.peek_next(), Some(CombatantId(1)));
    t.set_next();
    assert_eq!(t.get_current_warrior_entity(), Some(CombatantId(1)));
    assert_eq!(t.get_next_order_index(), 2);
}

#[test]
fn empty_order_has_no_current() {
    let t = turn_of(0);
    assert_eq!(t.get_current_warrior_entity(), None);
    assert_eq!(t.peek_next(), None);
}

#[test]
fn entity_index_finds_each_member() {
    let t = turn_of(3);
    assert_eq!(t.get_entity_index(CombatantId(2)), Some(2));
    assert_eq!(t.get_entity_index(CombatantId(7)), None);
}

#[test]
fn removing_a_later_combatant_keeps_the_current_one() {
    let mut t = turn_of(4);
    t.set_next();
    assert_eq!(t.get_current_warrior_entity(), Some(CombatantId(1)));
    assert!(t.remove_combatant(CombatantId(3)));
    assert_eq!(t.get_current_warrior_entity(), Some(CombatantId(1)));
    assert_eq!(t.order.len(), 3);
}

#[test]
fn removing_an_earlier_combatant_rebiases_the_cursor() {
    let mut t = turn_of(4);
    t.set_next();
    t.set_next();
    assert_eq!(t.get_current_warrior_entity(), Some(CombatantId(2)));
    assert!(t.remove_combatant(CombatantId(0)));
    assert_eq!(t.order_index, 1);
    assert_eq!(t.get_current_warrior_entity(), Some(CombatantId(2)));
}

#[test]
fn removing_the_current_combatant_never_skips_the_next() {
    // After the acting combatant leaves, one advance lands exactly on the
    // combatant that stood right behind it.
    let mut t = turn_of(4);
    t.set_next();
    assert!(t.remove_combatant(CombatantId(1)));
    assert_eq!(t.order_index, 0);
    let (_, started) = t.set_next();
    assert_eq!(started, CombatantId(2));
}

#[test]
fn removing_the_current_front_combatant_selects_its_successor() {
    let mut t = turn_of(3);
    assert!(t.remove_combatant(CombatantId(0)));
    assert_eq!(t.order_index, 0);
    assert_eq!(t.get_current_warrior_entity(), Some(CombatantId(1)));
}

#[test]
fn removing_a_stranger_changes_nothing() {
    let mut t = turn_of(3);
    t.set_next();
    assert!(!t.remove_combatant(CombatantId(9)));
    assert_eq!(t.order.len(), 3);
    assert_eq!(t.order_index, 1);
}
