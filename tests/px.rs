use tessera::px::{Px, PxPosition, PxSize};

#[test]
fn test_px_creation() {
    let px = Px::new(42);
    assert_eq!(px.0, 42);

    let px_neg = Px::new(-10);
    assert_eq!(px_neg.0, -10);
}

#[test]
fn test_px_arithmetic() {
    let a = Px(10);
    let b = Px(5);

    assert_eq!(a + b, Px(15));
    assert_eq!(a - b, Px(5));
    assert_eq!(a * 2, Px(20));
    assert_eq!(a / 2, Px(5));
}

#[test]
fn test_px_saturating_arithmetic() {
    let max = Px(i32::MAX);
    let min = Px(i32::MIN);
    assert_eq!(max.saturating_add(Px(1)), max);
    assert_eq!(min.saturating_sub(Px(1)), min);
}

#[test]
fn test_px_abs() {
    assert_eq!(Px(10).abs(), 10);
    assert_eq!(Px(-5).abs(), 0);
    assert_eq!(Px(0).abs(), 0);
}

#[test]
fn test_px_position() {
    let pos = PxPosition::new(Px(10), Px(-5));
    assert_eq!(pos.x, Px(10));
    assert_eq!(pos.y, Px(-5));

    let offset_pos = pos.offset(Px(2), Px(3));
    assert_eq!(offset_pos, PxPosition::new(Px(12), Px(-2)));
}

#[test]
fn test_px_position_arithmetic() {
    let pos1 = PxPosition::new(Px(10), Px(20));
    let pos2 = PxPosition::new(Px(5), Px(15));

    let sum = pos1 + pos2;
    assert_eq!(sum, PxPosition::new(Px(15), Px(35)));

    let diff = pos1 - pos2;
    assert_eq!(diff, PxPosition::new(Px(5), Px(5)));
}

#[test]
fn test_px_position_conversions() {
    let i32_pos: [i32; 2] = [10, -5];
    let px_pos: PxPosition = i32_pos.into();
    let back_to_i32: [i32; 2] = px_pos.into();
    assert_eq!(i32_pos, back_to_i32);

    let u32_pos: [u32; 2] = [10, 5];
    let px_from_u32: PxPosition = u32_pos.into();
    let back_to_u32: [u32; 2] = px_from_u32.into();
    assert_eq!(u32_pos, back_to_u32);
}

#[test]
fn px_raw_and_conversions() {
    assert_eq!(Px::new(7).raw(), 7);
    assert_eq!(Px::from(-3i32), Px(-3));
    assert_eq!(Px::from(9u32), Px(9));
    assert_eq!(-Px(4), Px(-4));
    assert_eq!(Px(3).max(Px(8)), Px(8));
    assert_eq!(Px(3).min(Px(8)), Px(3));
    let negative: [u32; 2] = PxPosition::new(Px(-4), Px(6)).into();
    assert_eq!(negative, [0, 6]);
    let arr: [Px; 2] = PxPosition::new(Px(1), Px(2)).into();
    assert_eq!(PxPosition::from(arr), PxPosition::new(Px(1), Px(2)));
}

#[test]
fn px_saturating_edges() {
    assert_eq!(Px(i32::MIN).saturating_add(Px(-1)), Px(i32::MIN));
    assert_eq!(Px(i32::MAX).saturating_sub(Px(-1)), Px(i32::MAX));
    assert_eq!(Px(5).saturating_sub(Px(7)), Px(-2));
    let pos = PxPosition::new(Px(i32::MAX - 1), Px(3));
    assert_eq!(pos.saturating_offset(Px(5), Px(-4)), PxPosition::new(Px(i32::MAX), Px(-1)));
}

#[test]
fn px_size_construction() {
    let s = PxSize::new(Px(3), Px(4));
    assert_eq!(s.width, Px(3));
    assert_eq!(PxSize::from([Px(3), Px(4)]), s);
}
