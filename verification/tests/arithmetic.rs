use minigrep::math::arithmetic;

#[test]
fn test_mod() {
    let result = arithmetic::add(5, 10);
    println!("The sum is: {}", result);
    assert_eq!(result, 15);
}

#[test]
fn add_at_the_limits() {
    assert_eq!(arithmetic::add(i32::MAX, 0), i32::MAX);
    assert_eq!(arithmetic::add(i32::MAX, i32::MIN), -1);
    assert_eq!(arithmetic::add(-7, 3), -4);
}

#[test]
fn subtract_values() {
    assert_eq!(arithmetic::subtract(10, 5), 5);
    assert_eq!(arithmetic::subtract(5, 10), -5);
    assert_eq!(arithmetic::subtract(i32::MIN, 0), i32::MIN);
    assert_eq!(arithmetic::subtract(-1, i32::MAX), i32::MIN);
}
