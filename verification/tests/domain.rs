use dynamic_domain::{Domain, Value};

#[test]
fn test_manual_domain() {
    let domain = Domain::Domain(Value::Included(5), Value::Secluded(10));
    assert_eq!(domain.repr(), "[5;10)".to_string())
}

#[test]
fn test_new() {
    let domain = Domain::new();
    assert_eq!(domain.repr(), "(-∞;∞)".to_string())
}

#[test]
fn test_gt() {
    let domain = Domain::new().gt(Value::Secluded(5));
    assert_eq!(domain.repr(), "(5;∞)".to_string())
}

#[test]
fn test_lt() {
    let domain = Domain::new()
        .lt(Value::Included(5))
        .gt(Value::Secluded(3))
        .gt(Value::Secluded(1));
    assert_eq!(domain.repr(), "(3;4)".to_string())
}

fn rec(n: i32, _c: ()) {
    assert!(n > 5);
    assert!(n < 10);
}

#[test]
fn test_generate() {
    let domain = Domain::new().gt(Value::Secluded(5)).lt(Value::Secluded(10));

    assert_eq!(domain.clone().repr(), "(5;10)".to_string());

    domain.generate(rec, ());
}
