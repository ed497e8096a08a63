use reentrancy::model::add_clamped;
use reentrancy::model::bump_count;
use reentrancy::model::sub_clamped;

#[test]
fn addition_clamps_at_the_range_ends() {
    assert_eq!(add_clamped(1, 2), 3);
    assert_eq!(add_clamped(-1, -2), -3);
    assert_eq!(add_clamped(i64::MAX, 1), i64::MAX);
    assert_eq!(add_clamped(i64::MIN, -1), i64::MIN);
    assert_eq!(add_clamped(i64::MAX, i64::MIN), -1);
}

#[test]
fn subtraction_clamps_at_the_range_ends() {
    assert_eq!(sub_clamped(1, 2), -1);
    assert_eq!(sub_clamped(-1, -2), 1);
    assert_eq!(sub_clamped(i64::MAX, -1), i64::MAX);
    assert_eq!(sub_clamped(i64::MIN, 1), i64::MIN);
    assert_eq!(sub_clamped(i64::MIN, i64::MIN), 0);
}

#[test]
fn counters_saturate_instead_of_wrapping() {
    assert_eq!(bump_count(0), 1);
    assert_eq!(bump_count(41), 42);
    assert_eq!(bump_count(u64::MAX - 1), u64::MAX);
    assert_eq!(bump_count(u64::MAX), u64::MAX);
}
