//! Literals: how they compare, and the constants they are lowered to.
use scriptir::ir::literal::numbers_equal;
use scriptir::ir::Literal;
use scriptir::target::Constant;

fn number(value: f64) -> Literal {
    Literal::Number(value.to_bits())
}

fn text(value: &str) -> Literal {
    Literal::String(value.to_string())
}

fn entry(key: &str, value: Literal) -> (String, Literal) {
    (key.to_string(), value)
}

#[test]
fn numbers_compare_as_floating_point_numbers_do() {
    let values = [
        0.0,
        -0.0,
        1.0,
        -1.0,
        10.0,
        0.1,
        f64::MIN_POSITIVE,
        f64::MAX,
        f64::MIN,
        f64::EPSILON,
        f64::INFINITY,
        f64::NEG_INFINITY,
        f64::NAN,
        -f64::NAN,
        f64::from_bits(0x7ff0_0000_0000_0001),
        f64::from_bits(0xfff8_0000_0000_0000),
        f64::from_bits(1),
        f64::from_bits(0x8000_0000_0000_0001),
    ];
    for first in values {
        for second in values {
            assert_eq!(
                numbers_equal(first.to_bits(), second.to_bits()),
                first == second,
                "{:?} and {:?}",
                first,
                second
            );
        }
    }
}

#[test]
fn nan_equals_nothing_and_the_zeros_equal_each_other() {
    assert!(!number(f64::NAN).eq(&number(f64::NAN)));
    assert!(number(0.0).eq(&number(-0.0)));
    assert!(number(10.0).eq(&number(10.0)));
    assert!(!number(10.0).eq(&number(10.5)));
}

#[test]
fn literals_of_different_kinds_differ() {
    assert!(!Literal::Bool(true).eq(&number(1.0)));
    assert!(!number(1.0).eq(&text("1")));
    assert!(!text("").eq(&Literal::List(vec![])));
    assert!(!Literal::List(vec![]).eq(&Literal::Mapping(vec![])));
    assert!(!Literal::Mapping(vec![]).eq(&Literal::Bool(false)));
}

#[test]
fn booleans_and_texts_compare_by_value() {
    assert!(Literal::Bool(true).eq(&Literal::Bool(true)));
    assert!(!Literal::Bool(true).eq(&Literal::Bool(false)));
    assert!(text("abc").eq(&text("abc")));
    assert!(!text("abc").eq(&text("abd")));
    assert!(!text("abc").eq(&text("ab")));
}

#[test]
fn lists_compare_element_by_element_in_order() {
    let list = Literal::List(vec![number(1.0), text("a")]);
    assert!(list.eq(&Literal::List(vec![number(1.0), text("a")])));
    assert!(!list.eq(&Literal::List(vec![text("a"), number(1.0)])));
    assert!(!list.eq(&Literal::List(vec![number(1.0)])));
    assert!(!list.eq(&Literal::List(vec![number(1.0), text("a"), text("a")])));
    assert!(Literal::List(vec![]).eq(&Literal::List(vec![])));
    assert!(!Literal::List(vec![number(f64::NAN)]).eq(&Literal::List(vec![number(f64::NAN)])));
}

#[test]
fn mappings_compare_whatever_the_order_of_their_entries() {
    let first = Literal::Mapping(vec![entry("a", number(1.0)), entry("b", text("x"))]);
    let second = Literal::Mapping(vec![entry("b", text("x")), entry("a", number(1.0))]);
    assert!(first.eq(&second));
    assert!(second.eq(&first));
    assert!(!first.eq(&Literal::Mapping(vec![entry("a", number(1.0))])));
    assert!(!Literal::Mapping(vec![entry("a", number(1.0))]).eq(&first));
    assert!(!first.eq(&Literal::Mapping(vec![entry("a", number(1.0)), entry("b", text("y"))])));
    assert!(!first.eq(&Literal::Mapping(vec![entry("a", number(1.0)), entry("c", text("x"))])));
    assert!(Literal::Mapping(vec![]).eq(&Literal::Mapping(vec![])));
}

#[test]
fn last_entry_of_a_key_counts() {
    let twice = Literal::Mapping(vec![entry("a", number(1.0)), entry("a", number(2.0))]);
    assert!(twice.eq(&Literal::Mapping(vec![entry("a", number(2.0))])));
    assert!(Literal::Mapping(vec![entry("a", number(2.0))]).eq(&twice));
    assert!(!twice.eq(&Literal::Mapping(vec![entry("a", number(1.0))])));
}

#[test]
fn nested_literals_compare_in_depth() {
    let first = Literal::Mapping(vec![entry(
        "list",
        Literal::List(vec![Literal::Mapping(vec![entry("x", number(0.0))])]),
    )]);
    let second = Literal::Mapping(vec![entry(
        "list",
        Literal::List(vec![Literal::Mapping(vec![entry("x", number(-0.0))])]),
    )]);
    let third = Literal::Mapping(vec![entry(
        "list",
        Literal::List(vec![Literal::Mapping(vec![entry("x", number(1.0))])]),
    )]);
    assert!(first.eq(&second));
    assert!(!first.eq(&third));
}

#[test]
fn each_kind_of_literal_lowers_to_its_constant() {
    assert_eq!(Literal::Bool(true).to_constant(), Constant::Boolean(true));
    assert_eq!(number(10.0).to_constant(), Constant::Real(0x4024_0000_0000_0000));
    assert_eq!(text("héllo").to_constant(), Constant::Text("héllo".to_string()));
    assert_eq!(
        Literal::List(vec![number(1.0), Literal::Bool(false)]).to_constant(),
        Constant::Sequence(vec![Constant::Real(1.0f64.to_bits()), Constant::Boolean(false)])
    );
    assert_eq!(
        Literal::Mapping(vec![entry("b", text("x")), entry("a", Literal::List(vec![]))])
            .to_constant(),
        Constant::Mapping(vec![
            ("b".to_string(), Constant::Text("x".to_string())),
            ("a".to_string(), Constant::Sequence(vec![])),
        ])
    );
}

#[test]
fn number_keeps_every_bit() {
    for bits in [0, 1, 0x8000_0000_0000_0000, 0x7ff8_0000_0000_0001, 0xffff_ffff_ffff_ffff, 0x4024_0000_0000_0000] {
        assert_eq!(Literal::Number(bits).to_constant(), Constant::Real(bits));
    }
    let nan = f64::from_bits(0x7ff8_0000_dead_beef);
    match number(nan).to_constant() {
        Constant::Real(bits) => assert_eq!(bits, 0x7ff8_0000_dead_beef),
        other => panic!("{:?} is no real", other),
    }
}
