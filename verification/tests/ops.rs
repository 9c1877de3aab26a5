use lox::model::LexKind;
use lox::ops::{binary_plan, is_truthy, short_circuits, unary_plan, Arith, BinaryPlan, Relation, UnaryPlan, ValueKind};

#[test]
fn truthiness() {
    assert!(!is_truthy(ValueKind::Nil));
    assert!(!is_truthy(ValueKind::Boolean(false)));
    assert!(is_truthy(ValueKind::Boolean(true)));
    assert!(is_truthy(ValueKind::Number));
    assert!(is_truthy(ValueKind::String));
    assert!(is_truthy(ValueKind::Function));
}

#[test]
fn plus_plans() {
    assert_eq!(binary_plan(LexKind::Plus, ValueKind::Number, ValueKind::Number), BinaryPlan::Arith(Arith::Add));
    assert_eq!(binary_plan(LexKind::Plus, ValueKind::String, ValueKind::String), BinaryPlan::Concat);
    assert_eq!(binary_plan(LexKind::Plus, ValueKind::String, ValueKind::Number), BinaryPlan::StringsOrNumbers);
}

#[test]
fn arithmetic_and_relations_need_numbers() {
    assert_eq!(binary_plan(LexKind::Slash, ValueKind::Number, ValueKind::Number), BinaryPlan::Arith(Arith::Divide));
    assert_eq!(binary_plan(LexKind::Minus, ValueKind::Nil, ValueKind::Number), BinaryPlan::Invalid);
    assert_eq!(binary_plan(LexKind::LessEq, ValueKind::Number, ValueKind::Number), BinaryPlan::Relate(Relation::LessEqual));
    assert_eq!(binary_plan(LexKind::Greater, ValueKind::String, ValueKind::String), BinaryPlan::Invalid);
    assert_eq!(binary_plan(LexKind::And, ValueKind::Number, ValueKind::Number), BinaryPlan::Invalid);
}

#[test]
fn equality_plans() {
    assert_eq!(binary_plan(LexKind::EqEq, ValueKind::Number, ValueKind::Number), BinaryPlan::Relate(Relation::Equal));
    assert_eq!(binary_plan(LexKind::EqEq, ValueKind::String, ValueKind::String), BinaryPlan::StringsEqual(true));
    assert_eq!(binary_plan(LexKind::BangEq, ValueKind::String, ValueKind::String), BinaryPlan::StringsEqual(false));
    assert_eq!(
        binary_plan(LexKind::EqEq, ValueKind::Boolean(true), ValueKind::Boolean(true)),
        BinaryPlan::Constant(true)
    );
    assert_eq!(binary_plan(LexKind::EqEq, ValueKind::Nil, ValueKind::Nil), BinaryPlan::Constant(false));
    assert_eq!(binary_plan(LexKind::BangEq, ValueKind::Nil, ValueKind::Number), BinaryPlan::Constant(true));
}

#[test]
fn unary_plans() {
    assert_eq!(unary_plan(LexKind::Bang, ValueKind::Number), UnaryPlan::Constant(false));
    assert_eq!(unary_plan(LexKind::Bang, ValueKind::Boolean(false)), UnaryPlan::Constant(true));
    assert_eq!(unary_plan(LexKind::Bang, ValueKind::Nil), UnaryPlan::Constant(true));
    assert_eq!(unary_plan(LexKind::Bang, ValueKind::String), UnaryPlan::Invalid);
    assert_eq!(unary_plan(LexKind::Minus, ValueKind::Number), UnaryPlan::Negate);
    assert_eq!(unary_plan(LexKind::Minus, ValueKind::Boolean(true)), UnaryPlan::Invalid);
    assert_eq!(unary_plan(LexKind::Plus, ValueKind::Number), UnaryPlan::Invalid);
}

#[test]
fn logical_short_circuit() {
    assert!(short_circuits(LexKind::Or, true));
    assert!(!short_circuits(LexKind::Or, false));
    assert!(short_circuits(LexKind::And, false));
    assert!(!short_circuits(LexKind::And, true));
}
