use tailr::quantity::{parse_quantity, Action, QuantityError};

#[test]
fn test_positive() {
    let parsed = parse_quantity("10".to_string()).unwrap();
    assert_eq!(parsed, Action::From(-10));
}

#[test]
fn test_positive_from() {
    let parsed = parse_quantity("+10".to_string()).unwrap();
    assert_eq!(parsed, Action::From(10));
}

#[test]
fn test_plus_zero() {
    let parsed = parse_quantity("+0".to_string()).unwrap();
    assert_eq!(parsed, Action::Everything);
}

#[test]
fn test_zero_normalizes_to_everything() {
    assert_eq!(parse_quantity("+0".to_string()).unwrap(), Action::Everything);
    assert_eq!(parse_quantity("-0".to_string()).unwrap(), Action::Everything);
    assert_eq!(parse_quantity("0".to_string()).unwrap(), Action::Everything);
}

#[test]
fn test_signed_directives() {
    assert_eq!(parse_quantity("+10".to_string()).unwrap(), Action::From(10));
    assert_eq!(parse_quantity("-10".to_string()).unwrap(), Action::From(-10));
    assert_eq!(parse_quantity("10".to_string()).unwrap(), Action::From(-10));
}

#[test]
fn test_invalid_quantities() {
    assert_eq!(
        parse_quantity("abc".to_string()).unwrap_err(),
        QuantityError::InvalidQuantity
    );
    assert_eq!(
        parse_quantity("".to_string()).unwrap_err(),
        QuantityError::InvalidQuantity
    );
    assert_eq!(
        parse_quantity("+".to_string()).unwrap_err(),
        QuantityError::InvalidQuantity
    );
    assert_eq!(
        parse_quantity("-".to_string()).unwrap_err(),
        QuantityError::InvalidQuantity
    );
}

#[test]
fn test_quantity_rejects_double_sign_and_overflow() {
    assert!(parse_quantity("+-5".to_string()).is_err());
    assert!(parse_quantity("--5".to_string()).is_err());
    assert!(parse_quantity("1 0".to_string()).is_err());
    // One past i64::MAX must be rejected, i64::MAX itself accepted.
    assert!(parse_quantity("9223372036854775808".to_string()).is_err());
    assert_eq!(
        parse_quantity("-9223372036854775807".to_string()).unwrap(),
        Action::From(-9223372036854775807)
    );
}
