use collision2d::algebra::Vec2;
use collision2d::rational::Rat;

fn vec2i(x: i64, y: i64) -> Vec2 {
    Vec2::new(Rat::from_int(x), Rat::from_int(y))
}

#[test]
fn test_dot() {
    let zero = vec2i(0, 0);
    let one = vec2i(1, 1);
    let vector1 = vec2i(2, 42);
    let vector2 = vec2i(-42, 2);

    assert_eq!(zero.dot(&vector1).unwrap(), Rat::from_int(0));
    assert_eq!(one.dot(&vector1).unwrap(), Rat::from_int(44));
    assert_eq!(vector1.dot(&vector2).unwrap(), Rat::from_int(0));
}

#[test]
fn test_multiply() {
    let zero = vec2i(0, 0);
    let one = vec2i(1, 1);
    let vector1 = vec2i(2, 42);

    assert_eq!(zero.checked_scale(&Rat::from_int(42)).unwrap(), zero);
    assert_eq!(one.checked_scale(&Rat::from_int(42)).unwrap(), vec2i(42, 42));
    assert_eq!(vector1.checked_scale(&Rat::from_int(0)).unwrap(), zero);
    assert_eq!(vector1.checked_scale(&Rat::from_int(10)).unwrap(), vec2i(20, 420));
}

#[test]
fn test_add() {
    let zero = vec2i(0, 0);
    let one = vec2i(1, 1);
    let vector1 = vec2i(2, 42);

    assert_eq!(zero.checked_add(&one).unwrap(), one);
    assert_eq!(vector1.checked_add(&zero).unwrap(), vector1);
    assert_eq!(vector1.checked_add(&vector1).unwrap(), vec2i(4, 84));
}

#[test]
fn test_subtract() {
    let zero = vec2i(0, 0);
    let one = vec2i(1, 1);
    let vector1 = vec2i(2, 42);

    assert_eq!(zero.checked_sub(&one).unwrap(), vec2i(-1, -1));
    assert_eq!(one.checked_sub(&zero).unwrap(), one);
    assert_eq!(vector1.checked_sub(&zero).unwrap(), vector1);
    assert_eq!(vector1.checked_sub(&vector1).unwrap(), zero);
}

#[test]
fn test_length_squared() {
    let zero = vec2i(0, 0);
    let one = vec2i(1, 1);
    let vector1 = vec2i(-2, 42);

    assert_eq!(zero.length_squared().unwrap(), Rat::from_int(0));
    assert_eq!(one.length_squared().unwrap(), Rat::from_int(2));
    assert_eq!(vector1.length_squared().unwrap(), Rat::from_int(2 * 2 + 42 * 42));
}
