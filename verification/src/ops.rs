//! What the evaluator does with operators, decided from the kinds of the
//! operand values. The arithmetic itself is on doubles and left to the
//! caller; these functions say which operation applies, or which error.
use crate::model::LexKind;
use vstd::prelude::*;

verus! {

/// The kind of a runtime value; a boolean carries its truth value.
#[derive(Debug, Clone, Copy, PartialEq, Eq, Structural)]
pub enum ValueKind {
    Return,
    Function,
    Number,
    String,
    Boolean(bool),
    Nil,
}

/// An arithmetic operation on two numbers.
#[derive(Debug, Clone, Copy, PartialEq, Eq, Structural)]
pub enum Arith {
    Add,
    Subtract,
    Multiply,
    Divide,
}

/// A relation between two numbers.
#[derive(Debug, Clone, Copy, PartialEq, Eq, Structural)]
pub enum Relation {
    Equal,
    NotEqual,
    Less,
    LessEqual,
    Greater,
    GreaterEqual,
}

/// What a binary operator does with its two operands.
#[derive(Debug, Clone, Copy, PartialEq, Eq, Structural)]
pub enum BinaryPlan {
    /// Arithmetic on two numbers, giving a number.
    Arith(Arith),
    /// The relation between two numbers, giving a boolean.
    Relate(Relation),
    /// The two strings joined.
    Concat,
    /// Whether the two strings are equal (`true`) or differ (`false`).
    StringsEqual(bool),
    /// A boolean known from the kinds alone.
    Constant(bool),
    /// The error for `+` on operands that are not two numbers or two
    /// strings.
    StringsOrNumbers,
    /// The error for an operator that does not apply to its operands.
    Invalid,
}

/// What a unary operator does with its operand.
#[derive(Debug, Clone, Copy, PartialEq, Eq, Structural)]
pub enum UnaryPlan {
    /// The number negated.
    Negate,
    /// A boolean known from the operand's kind.
    Constant(bool),
    /// The error for an operator that does not apply to its operand.
    Invalid,
}

/// Whether a value of this kind counts as true: `nil` and `false` do not,
/// everything else does.
pub open spec fn spec_truthy(k: ValueKind) -> bool {
    match k {
        ValueKind::Boolean(b) => b,
        ValueKind::Nil => false,
        _ => true,
    }
}

/// The plan of a binary operator of kind `op` on operands of kinds `l`
/// and `r`.
pub open spec fn spec_binary_plan(op: LexKind, l: ValueKind, r: ValueKind) -> BinaryPlan {
    let numbers = l == ValueKind::Number && r == ValueKind::Number;
    let strings = l == ValueKind::String && r == ValueKind::String;
    match op {
        LexKind::Plus => if numbers {
            BinaryPlan::Arith(Arith::Add)
        } else if strings {
            BinaryPlan::Concat
        } else {
            BinaryPlan::StringsOrNumbers
        },
        LexKind::Minus => if numbers {
            BinaryPlan::Arith(Arith::Subtract)
        } else {
            BinaryPlan::Invalid
        },
        LexKind::Star => if numbers {
            BinaryPlan::Arith(Arith::Multiply)
        } else {
            BinaryPlan::Invalid
        },
        LexKind::Slash => if numbers {
            BinaryPlan::Arith(Arith::Divide)
        } else {
            BinaryPlan::Invalid
        },
        LexKind::EqEq => if numbers {
            BinaryPlan::Relate(Relation::Equal)
        } else if strings {
            BinaryPlan::StringsEqual(true)
        } else {
            match (l, r) {
                (ValueKind::Boolean(a), ValueKind::Boolean(b)) => BinaryPlan::Constant(a == b),
                _ => BinaryPlan::Constant(false),
            }
        },
        LexKind::BangEq => if numbers {
            BinaryPlan::Relate(Relation::NotEqual)
        } else if strings {
            BinaryPlan::StringsEqual(false)
        } else {
            match (l, r) {
                (ValueKind::Boolean(a), ValueKind::Boolean(b)) => BinaryPlan::Constant(a != b),
                _ => BinaryPlan::Constant(true),
            }
        },
        LexKind::Less => if numbers {
            BinaryPlan::Relate(Relation::Less)
        } else {
            BinaryPlan::Invalid
        },
        LexKind::LessEq => if numbers {
            BinaryPlan::Relate(Relation::LessEqual)
        } else {
            BinaryPlan::Invalid
        },
        LexKind::Greater => if numbers {
            BinaryPlan::Relate(Relation::Greater)
        } else {
            BinaryPlan::Invalid
        },
        LexKind::GreaterEq => if numbers {
            BinaryPlan::Relate(Relation::GreaterEqual)
        } else {
            BinaryPlan::Invalid
        },
        _ => BinaryPlan::Invalid,
    }
}

/// The plan of a unary operator of kind `op` on an operand of kind `v`.
pub open spec fn spec_unary_plan(op: LexKind, v: ValueKind) -> UnaryPlan {
    match op {
        LexKind::Bang => match v {
            ValueKind::Number => UnaryPlan::Constant(false),
            ValueKind::Boolean(b) => UnaryPlan::Constant(!b),
            ValueKind::Nil => UnaryPlan::Constant(true),
            _ => UnaryPlan::Invalid,
        },
        LexKind::Minus => match v {
            ValueKind::Number => UnaryPlan::Negate,
            _ => UnaryPlan::Invalid,
        },
        _ => UnaryPlan::Invalid,
    }
}

/// Whether a logical operator of kind `op` gives its left operand without
/// evaluating the right one: `or` on a true left operand, `and` on a false
/// one.
pub open spec fn spec_short_circuits(op: LexKind, left_truthy: bool) -> bool {
    (op == LexKind::Or && left_truthy) || (op == LexKind::And && !left_truthy)
}

/// Whether a value of kind `k` counts as true.
pub fn is_truthy(k: ValueKind) -> (r: bool)
    ensures
        r == spec_truthy(k),
{
    match k {
        ValueKind::Boolean(b) => b,
        ValueKind::Nil => false,
        _ => true,
    }
}

/// The plan of a binary operator of kind `op` on operands of kinds `l`
/// and `r`.
pub fn binary_plan(op: LexKind, l: ValueKind, r: ValueKind) -> (p: BinaryPlan)
    ensures
        p == spec_binary_plan(op, l, r),
{
    let numbers = l == ValueKind::Number && r == ValueKind::Number;
    let strings = l == ValueKind::String && r == ValueKind::String;
    match op {
        LexKind::Plus => if numbers {
            BinaryPlan::Arith(Arith::Add)
        } else if strings {
            BinaryPlan::Concat
        } else {
            BinaryPlan::StringsOrNumbers
        },
        LexKind::Minus => if numbers {
            BinaryPlan::Arith(Arith::Subtract)
        } else {
            BinaryPlan::Invalid
        },
        LexKind::Star => if numbers {
            BinaryPlan::Arith(Arith::Multiply)
        } else {
            BinaryPlan::Invalid
        },
        LexKind::Slash => if numbers {
            BinaryPlan::Arith(Arith::Divide)
        } else {
            BinaryPlan::Invalid
        },
        LexKind::EqEq => if numbers {
            BinaryPlan::Relate(Relation::Equal)
        } else if strings {
            BinaryPlan::StringsEqual(true)
        } else {
            match (l, r) {
                (ValueKind::Boolean(a), ValueKind::Boolean(b)) => BinaryPlan::Constant(a == b),
                _ => BinaryPlan::Constant(false),
            }
        },
        LexKind::BangEq => if numbers {
            BinaryPlan::Relate(Relation::NotEqual)
        } else if strings {
            BinaryPlan::StringsEqual(false)
        } else {
            match (l, r) {
                (ValueKind::Boolean(a), ValueKind::Boolean(b)) => BinaryPlan::Constant(a != b),
                _ => BinaryPlan::Constant(true),
            }
        },
        LexKind::Less => if numbers {
            BinaryPlan::Relate(Relation::Less)
        } else {
            BinaryPlan::Invalid
        },
        LexKind::LessEq => if numbers {
            BinaryPlan::Relate(Relation::LessEqual)
        } else {
            BinaryPlan::Invalid
        },
        LexKind::Greater => if numbers {
            BinaryPlan::Relate(Relation::Greater)
        } else {
            BinaryPlan::Invalid
        },
        LexKind::GreaterEq => if numbers {
            BinaryPlan::Relate(Relation::GreaterEqual)
        } else {
            BinaryPlan::Invalid
        },
        _ => BinaryPlan::Invalid,
    }
}

/// The plan of a unary operator of kind `op` on an operand of kind `v`.
pub fn unary_plan(op: LexKind, v: ValueKind) -> (p: UnaryPlan)
    ensures
        p == spec_unary_plan(op, v),
{
    match op {
        LexKind::Bang => match v {
            ValueKind::Number => UnaryPlan::Constant(false),
            ValueKind::Boolean(b) => UnaryPlan::Constant(!b),
            ValueKind::Nil => UnaryPlan::Constant(true),
            _ => UnaryPlan::Invalid,
        },
        LexKind::Minus => match v {
            ValueKind::Number => UnaryPlan::Negate,
            _ => UnaryPlan::Invalid,
        },
        _ => UnaryPlan::Invalid,
    }
}

/// Whether a logical operator of kind `op` gives its left operand, of
/// truth `left_truthy`, without evaluating the right one.
pub fn short_circuits(op: LexKind, left_truthy: bool) -> (r: bool)
    ensures
        r == spec_short_circuits(op, left_truthy),
{
    (op == LexKind::Or && left_truthy) || (op == LexKind::And && !left_truthy)
}

/// Whether the relation `rel` holds between the numbers `x` and `y`.
pub open spec fn relation_holds(rel: Relation, x: int, y: int) -> bool {
    match rel {
        Relation::Equal => x == y,
        Relation::NotEqual => x != y,
        Relation::Less => x < y,
        Relation::LessEqual => x <= y,
        Relation::Greater => x > y,
        Relation::GreaterEqual => x >= y,
    }
}

/// The result of the arithmetic operation `a` on the numbers `x` and `y`.
pub open spec fn arith_value(a: Arith, x: int, y: int) -> int {
    match a {
        Arith::Add => x + y,
        Arith::Subtract => x - y,
        Arith::Multiply => x * y,
        Arith::Divide => x / y,
    }
}

/// On two numbers, each comparison operator compares them as its symbol
/// says: `<` holds exactly when the left number is the smaller, and so on
/// for `<=`, `>`, `>=`, `==` and `!=`.
pub proof fn law_comparisons_on_numbers(x: int, y: int)
    ensures
        spec_binary_plan(LexKind::Less, ValueKind::Number, ValueKind::Number) matches BinaryPlan::Relate(
            rel,
        ) && relation_holds(rel, x, y) == (x < y),
        spec_binary_plan(LexKind::LessEq, ValueKind::Number, ValueKind::Number) matches BinaryPlan::Relate(
            rel,
        ) && relation_holds(rel, x, y) == (x <= y),
        spec_binary_plan(LexKind::Greater, ValueKind::Number, ValueKind::Number) matches BinaryPlan::Relate(
            rel,
        ) && relation_holds(rel, x, y) == (x > y),
        spec_binary_plan(LexKind::GreaterEq, ValueKind::Number, ValueKind::Number) matches BinaryPlan::Relate(
            rel,
        ) && relation_holds(rel, x, y) == (x >= y),
        spec_binary_plan(LexKind::EqEq, ValueKind::Number, ValueKind::Number) matches BinaryPlan::Relate(
            rel,
        ) && relation_holds(rel, x, y) == (x == y),
        spec_binary_plan(LexKind::BangEq, ValueKind::Number, ValueKind::Number) matches BinaryPlan::Relate(
            rel,
        ) && relation_holds(rel, x, y) == (x != y),
{
}

/// On two numbers, each arithmetic operator computes what its symbol says:
/// `+` the sum, `-` the difference, `*` the product and `/` the quotient
/// (by a divisor other than zero).
pub proof fn law_arithmetic_on_numbers(x: int, y: int)
    ensures
        spec_binary_plan(LexKind::Plus, ValueKind::Number, ValueKind::Number) matches BinaryPlan::Arith(a)
            && arith_value(a, x, y) == x + y,
        spec_binary_plan(LexKind::Minus, ValueKind::Number, ValueKind::Number) matches BinaryPlan::Arith(a)
            && arith_value(a, x, y) == x - y,
        spec_binary_plan(LexKind::Star, ValueKind::Number, ValueKind::Number) matches BinaryPlan::Arith(a)
            && arith_value(a, x, y) == x * y,
        spec_binary_plan(LexKind::Slash, ValueKind::Number, ValueKind::Number) matches BinaryPlan::Arith(a)
            && (y != 0 ==> arith_value(a, x, y) == x / y),
{
}

/// What the plan `StringsEqual(w)` answers for the strings `x` and `y`:
/// whether they are equal where `w` holds, whether they differ otherwise.
pub open spec fn strings_answer(w: bool, x: Seq<char>, y: Seq<char>) -> bool {
    if w {
        x == y
    } else {
        x != y
    }
}

/// `==` and `!=` on two strings and on two booleans answer as their
/// symbols say: `==` whether the operands are equal, `!=` whether they
/// differ.
pub proof fn law_equality_on_strings_and_booleans(x: Seq<char>, y: Seq<char>, a: bool, b: bool)
    ensures
        spec_binary_plan(LexKind::EqEq, ValueKind::String, ValueKind::String) matches BinaryPlan::StringsEqual(
            w,
        ) && strings_answer(w, x, y) == (x == y),
        spec_binary_plan(LexKind::BangEq, ValueKind::String, ValueKind::String) matches BinaryPlan::StringsEqual(
            w,
        ) && strings_answer(w, x, y) == (x != y),
        spec_binary_plan(LexKind::EqEq, ValueKind::Boolean(a), ValueKind::Boolean(b))
            == BinaryPlan::Constant(a == b),
        spec_binary_plan(LexKind::BangEq, ValueKind::Boolean(a), ValueKind::Boolean(b))
            == BinaryPlan::Constant(a != b),
{
}

/// The truth of a logical expression whose left operand has truth
/// `left_truthy` and whose right operand, evaluated only where the left
/// one does not decide, has truth `right_truthy`.
pub open spec fn logical_truth(op: LexKind, left_truthy: bool, right_truthy: bool) -> bool {
    if spec_short_circuits(op, left_truthy) {
        left_truthy
    } else {
        right_truthy
    }
}

/// `or` is true exactly when one of its operands is, `and` exactly when
/// both are: the operand that short-circuiting leaves unevaluated could not
/// change the answer.
pub proof fn law_logical_truth(left_truthy: bool, right_truthy: bool)
    ensures
        logical_truth(LexKind::Or, left_truthy, right_truthy) == (left_truthy || right_truthy),
        logical_truth(LexKind::And, left_truthy, right_truthy) == (left_truthy && right_truthy),
{
}

/// `!` on a value gives the negation of its truth, for every kind it
/// applies to.
pub proof fn law_not_is_untruth(v: ValueKind)
    requires
        v != ValueKind::Return,
        v != ValueKind::Function,
        v != ValueKind::String,
    ensures
        spec_unary_plan(LexKind::Bang, v) == UnaryPlan::Constant(!spec_truthy(v)),
{
}

/// `==` and `!=` never fail, and on operands whose outcome the kinds
/// decide, they give opposite answers.
pub proof fn law_equality_total(l: ValueKind, r: ValueKind)
    ensures
        spec_binary_plan(LexKind::EqEq, l, r) != BinaryPlan::Invalid,
        spec_binary_plan(LexKind::BangEq, l, r) != BinaryPlan::Invalid,
        spec_binary_plan(LexKind::EqEq, l, r) matches BinaryPlan::Constant(a) ==> spec_binary_plan(
            LexKind::BangEq,
            l,
            r,
        ) == BinaryPlan::Constant(!a),
{
}

} // verus!
