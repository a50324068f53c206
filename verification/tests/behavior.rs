use dynamic_domain::util::convert_to_secluded;
use dynamic_domain::{Domain, Value};
use std::cell::RefCell;
use std::rc::Rc;

fn collect(n: i32, acc: Rc<RefCell<Vec<i32>>>) {
    acc.borrow_mut().push(n);
}

fn collected(domain: &Domain<i32>) -> Vec<i32> {
    let acc: Rc<RefCell<Vec<i32>>> = Rc::new(RefCell::new(Vec::new()));
    domain.generate(collect, acc.clone());
    let values = acc.borrow().clone();
    values
}

#[test]
fn repr_unbounded_interval() {
    let domain = Domain::Domain(Value::Infinite, Value::Infinite);
    assert_eq!(domain.repr(), "(-∞;∞)".to_string())
}

#[test]
fn repr_negative_numbers() {
    let domain = Domain::Domain(Value::Included(-12), Value::Included(0));
    assert_eq!(domain.repr(), "[-12;0]".to_string())
}

#[test]
fn repr_empty() {
    let domain = Domain::<i32>::Empty;
    assert_eq!(domain.repr(), "∅".to_string())
}

#[test]
fn repr_union() {
    let domain = Domain::Union(vec![
        Domain::Domain(Value::Included(1), Value::Secluded(3)),
        Domain::Empty,
        Domain::Domain(Value::Secluded(4), Value::Infinite),
    ]);
    assert_eq!(domain.repr(), "[1;3)⋃∅⋃(4;∞)".to_string())
}

#[test]
fn unbounded_narrowing_empties() {
    assert_eq!(Domain::new().gt(Value::Infinite).repr(), "∅".to_string());
    assert_eq!(Domain::new().lt(Value::Infinite).repr(), "∅".to_string());
}

#[test]
fn narrowing_skips_empty_and_union() {
    let empty = Domain::<i32>::Empty;
    assert_eq!(empty.gt(Value::Secluded(5)).repr(), "∅".to_string());
    let union = Domain::Union(vec![Domain::Domain(Value::Included(1), Value::Included(2))]);
    assert_eq!(union.lt(Value::Secluded(0)).repr(), "[1;2]".to_string());
}

#[test]
fn narrowing_is_idempotent() {
    let domain = Domain::new().gt(Value::Secluded(3));
    let once = domain.gt(Value::Secluded(3));
    assert_eq!(once.repr(), domain.repr());
}

#[test]
fn narrowing_keeps_inclusivity_category() {
    let domain = Domain::Domain(Value::Included(1), Value::Infinite);
    assert_eq!(domain.gt(Value::Secluded(5)).repr(), "[5;∞)".to_string());
}

#[test]
fn tightest_bound_wins() {
    let domain = Domain::new().gt(Value::Secluded(5));
    assert_eq!(domain.gt(Value::Secluded(9)).repr(), "(9;∞)".to_string());
    assert_eq!(domain.gt(Value::Secluded(2)).repr(), "(5;∞)".to_string());
}

#[test]
fn generate_walks_open_interval() {
    let domain = Domain::new().gt(Value::Secluded(5)).lt(Value::Secluded(10));
    assert_eq!(collected(&domain), vec![6, 7, 8, 9]);
}

#[test]
fn generate_on_empty_walks_nothing() {
    let domain = Domain::<i32>::Empty;
    assert_eq!(collected(&domain), Vec::<i32>::new());
}

#[test]
fn generate_on_full_line_walks_nothing() {
    let domain = Domain::new();
    assert_eq!(collected(&domain), Vec::<i32>::new());
}

#[test]
fn generate_union_keeps_order_and_duplicates() {
    let domain = Domain::Union(vec![
        Domain::Domain(Value::Secluded(0), Value::Secluded(3)),
        Domain::Domain(Value::Secluded(1), Value::Secluded(4)),
    ]);
    assert_eq!(collected(&domain), vec![1, 2, 2, 3]);
}

#[test]
fn generate_descends_from_finite_upper_bound() {
    let domain = Domain::Domain(Value::Infinite, Value::Included(i32::MIN + 2));
    assert_eq!(collected(&domain), vec![i32::MIN + 2, i32::MIN + 1, i32::MIN]);
}

#[test]
fn members_of_open_interval() {
    let domain = Domain::new().gt(Value::Secluded(5)).lt(Value::Secluded(10));
    assert_eq!(domain.members(), vec![6, 7, 8, 9]);
}

#[test]
fn members_of_closed_interval() {
    let domain = Domain::Domain(Value::Included(5), Value::Included(7));
    assert_eq!(domain.members(), vec![5, 6, 7]);
}

#[test]
fn members_of_degenerate_interval() {
    let domain = Domain::Domain(Value::Secluded(5), Value::Secluded(6));
    assert_eq!(domain.members(), Vec::<i32>::new());
}

#[test]
fn members_stop_at_largest_representable() {
    let domain = Domain::new().gt(Value::Included(i32::MAX - 2));
    assert_eq!(domain.members(), vec![i32::MAX - 2, i32::MAX - 1, i32::MAX]);
}

#[test]
fn narrowing_result_is_subset() {
    let domain = Domain::new().gt(Value::Secluded(5)).lt(Value::Secluded(10));
    let narrowed = domain.gt(Value::Secluded(7));
    let wide = domain.members();
    for n in narrowed.members() {
        assert!(wide.contains(&n));
    }
}

#[test]
fn convert_included_moves_one_step() {
    assert_eq!(convert_to_secluded(Value::Included(5), true), Some(4));
    assert_eq!(convert_to_secluded(Value::Included(5), false), Some(6));
}

#[test]
fn convert_secluded_passes_through() {
    assert_eq!(convert_to_secluded(Value::Secluded(7), true), Some(7));
    assert_eq!(convert_to_secluded(Value::Secluded(7), false), Some(7));
}

#[test]
fn convert_infinite_has_no_boundary() {
    assert_eq!(convert_to_secluded(Value::<i32>::Infinite, true), None);
}

#[test]
fn duplicate_reads_the_same() {
    let domain = Domain::Union(vec![
        Domain::Domain(Value::Included(1), Value::Secluded(3)),
        Domain::Empty,
    ]);
    assert_eq!(domain.duplicate().repr(), domain.repr());
}
