use iced_logic::constraints::Constraints;
use iced_logic::geometry::{Axis, Size, INFINITY_BITS, ZERO_BITS};

fn size(width: f32, height: f32) -> Size {
    Size::new(width.to_bits(), height.to_bits())
}

#[test]
fn minimum_leaves_the_maximum_unbounded() {
    let c = Constraints::minimum(size(100.0, 0.0));
    assert_eq!(c.min, size(100.0, 0.0));
    assert_eq!(f32::from_bits(c.max.width_bits), f32::INFINITY);
    assert_eq!(f32::from_bits(c.max.height_bits), f32::INFINITY);
    assert_eq!(c.max, Size::infinite());
    assert!(!c.passes_resize(Axis::Horizontal));
    assert!(!c.passes_resize(Axis::Vertical));
}

#[test]
fn fixed_pins_both_bounds() {
    let c = Constraints::fixed(size(30.0, 40.0));
    assert_eq!(c.min, c.max);
    assert_eq!(c, Constraints::new(size(30.0, 40.0), size(30.0, 40.0)));
}

#[test]
fn default_is_a_zero_minimum() {
    let c = Constraints::default();
    assert_eq!(c, Constraints::minimum(Size::zero()));
    assert_eq!(c.min.width_bits, ZERO_BITS);
    assert_eq!(c.max.width_bits, INFINITY_BITS);
}

#[test]
fn pass_through_marks_only_its_axis() {
    let c = Constraints::fixed(size(30.0, 0.0)).pass_through(Axis::Vertical);
    assert!(c.passes_resize(Axis::Vertical));
    assert!(!c.passes_resize(Axis::Horizontal));
    assert_eq!(c.min, size(30.0, 0.0));

    let both = c.pass_through(Axis::Horizontal);
    assert!(both.passes_resize(Axis::Vertical));
    assert!(both.passes_resize(Axis::Horizontal));
}

#[test]
fn for_resize_collapses_pass_through_panes() {
    let rail = Constraints::new(size(30.0, 0.0), size(30.0, f32::INFINITY)).pass_through(Axis::Vertical);
    assert_eq!(rail.for_resize(Axis::Vertical), Constraints::fixed(Size::zero()));
    assert_eq!(rail.for_resize(Axis::Horizontal), rail);

    let plain = Constraints::minimum(size(100.0, 0.0));
    assert_eq!(plain.for_resize(Axis::Vertical), plain);
}

#[test]
fn sizes_hold_float_bits() {
    assert_eq!(Size::zero(), size(0.0, 0.0));
    assert_eq!(Size::infinite(), size(f32::INFINITY, f32::INFINITY));
}

#[test]
fn pass_through_is_idempotent_and_keeps_the_other_axis() {
    let c = Constraints::new(size(10.0, 20.0), size(30.0, 40.0));
    let once = c.pass_through(Axis::Vertical);
    assert_eq!(once.pass_through(Axis::Vertical), once);
    assert_eq!(once.min, c.min);
    assert_eq!(once.max, c.max);
    assert!(once.passes_resize(Axis::Vertical));
    assert_eq!(once.passes_resize(Axis::Horizontal), c.passes_resize(Axis::Horizontal));
}
