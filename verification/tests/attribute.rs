use combat_core::attribute::Attribute;

#[test]
fn accessors_report_fields() {
    let a = Attribute::new(2, 5, 9);
    assert_eq!(a.value(), 5);
    assert_eq!(a.min(), 2);
    assert_eq!(a.max(), 9);
}

#[test]
fn default_is_all_zero() {
    let a = Attribute::default();
    assert_eq!(a.value(), 0);
    assert_eq!(a.min(), 0);
    assert_eq!(a.max(), 0);
}

#[test]
fn drop_within_bounds_removes_exactly() {
    let mut a = Attribute::new(0, 50, 50);
    let remainder = a.drop(15);
    assert_eq!(a.value(), 35);
    assert_eq!(remainder, 0);
}

#[test]
fn drop_past_min_returns_remainder() {
    let mut a = Attribute::new(0, 10, 50);
    let remainder = a.drop(15);
    assert_eq!(a.value(), 0);
    assert_eq!(remainder, 5);
}

#[test]
fn drop_respects_nonzero_min() {
    let mut a = Attribute::new(3, 10, 50);
    let remainder = a.drop(15);
    assert_eq!(a.value(), 3);
    assert_eq!(remainder, 8);
}

#[test]
fn rise_within_bounds_adds_exactly() {
    let mut a = Attribute::new(0, 10, 50);
    let remainder = a.rise(15);
    assert_eq!(a.value(), 25);
    assert_eq!(remainder, 0);
}

#[test]
fn rise_past_max_returns_remainder() {
    let mut a = Attribute::new(0, 45, 50);
    let remainder = a.rise(15);
    assert_eq!(a.value(), 50);
    assert_eq!(remainder, 10);
}

#[test]
fn rise_max_fully_restores() {
    let mut a = Attribute::new(0, 7, 50);
    a.rise_max();
    assert_eq!(a.value(), 50);
}

#[test]
fn drop_min_removes_the_minimum() {
    let mut a = Attribute::new(4, 20, 50);
    let remainder = a.drop_min();
    assert_eq!(a.value(), 16);
    assert_eq!(remainder, 0);
}

#[test]
fn drop_then_rise_restores_value() {
    // Remainder accounting is exact: rising by what was actually removed
    // restores the original value.
    let starts = [(0u32, 50u32, 50u32, 15u32), (3, 10, 50, 25), (0, 0, 10, 5), (2, 7, 9, 100)];
    for (min, value, max, amount) in starts {
        let mut a = Attribute::new(min, value, max);
        let remainder = a.drop(amount);
        a.rise(amount - remainder);
        assert_eq!(a.value(), value);
    }
}

#[test]
fn invariant_holds_under_mixed_operations() {
    let mut a = Attribute::new(2, 30, 40);
    let checks = |a: &Attribute| {
        assert!(a.min() <= a.value());
        assert!(a.value() <= a.max());
    };
    a.drop(100);
    checks(&a);
    a.rise(5);
    checks(&a);
    a.erode(50, 100);
    checks(&a);
    a.rise(1000);
    checks(&a);
    a.erode(10, 10);
    checks(&a);
    a.drop(1);
    checks(&a);
}

#[test]
fn erode_lowers_max_by_rounded_share() {
    let mut a = Attribute::new(0, 50, 50);
    // 20 damage at a 10 percent factor erodes round(2.0) = 2.
    a.erode(20, 10);
    assert_eq!(a.max(), 48);
    assert_eq!(a.value(), 48);
}

#[test]
fn erode_rounds_halves_up() {
    let mut a = Attribute::new(0, 10, 100);
    // 25 damage at 10 percent is 2.5, rounded to 3.
    a.erode(25, 10);
    assert_eq!(a.max(), 97);
    assert_eq!(a.value(), 10);
}

#[test]
fn erode_never_drops_max_below_min() {
    let mut a = Attribute::new(30, 40, 50);
    a.erode(1000, 100);
    assert_eq!(a.max(), 30);
    assert_eq!(a.value(), 30);
}

#[test]
fn erosion_is_monotone_over_repeats() {
    let mut a = Attribute::new(5, 50, 50);
    let mut last_max = a.max();
    for _ in 0..30 {
        a.erode(7, 33);
        assert!(a.max() <= last_max);
        assert!(a.max() >= a.min());
        last_max = a.max();
    }
    assert_eq!(a.max(), 5);
}

#[test]
fn can_drop_measures_headroom_over_min() {
    let a = Attribute::new(3, 10, 50);
    assert!(a.can_drop(7));
    assert!(!a.can_drop(8));
}

#[test]
fn set_value_clamps_into_bounds() {
    let mut a = Attribute::new(10, 20, 30);
    a.set_value(5);
    assert_eq!(a.value(), 10);
    a.set_value(35);
    assert_eq!(a.value(), 30);
    a.set_value(25);
    assert_eq!(a.value(), 25);
}

#[test]
fn set_min_and_set_max_reclamp() {
    let mut a = Attribute::new(0, 5, 30);
    a.set_min(10);
    assert_eq!(a.min(), 10);
    assert_eq!(a.value(), 10);
    a.set_max(8);
    assert_eq!(a.max(), 10);
    let mut b = Attribute::new(0, 25, 30);
    b.set_max(20);
    assert_eq!(b.max(), 20);
    assert_eq!(b.value(), 20);
}

#[test]
fn percentage_is_exact_and_guards_empty_span() {
    let a = Attribute::new(0, 25, 100);
    assert_eq!(a.as_percentage(), 25);
    let b = Attribute::new(10, 10, 10);
    assert_eq!(b.as_percentage(), 0);
    let c = Attribute::new(10, 20, 30);
    assert_eq!(c.as_percentage(), 50);
}

#[test]
fn as_text_renders_value_and_maximum() {
    let a = Attribute::new(0, 37, 120);
    assert_eq!(a.as_text(), "37 / 120");
    let b = Attribute::new(0, 0, 0);
    assert_eq!(b.as_text(), "0 / 0");
}

#[test]
fn decimal_rendering_is_exact() {
    assert_eq!(combat_core::attribute::u32_to_decimal(0), "0");
    assert_eq!(combat_core::attribute::u32_to_decimal(10), "10");
    assert_eq!(combat_core::attribute::u32_to_decimal(4294967295), "4294967295");
}
