//! The closed operator and function vocabularies of the formula language.

use vstd::prelude::*;

verus! {

/// The four binary arithmetic operators.
#[derive(Clone, Copy, Debug, PartialEq, Eq, Structural)]
pub enum ArithOp {
    Plus,
    Minus,
    Mult,
    Div,
}

/// The closed set of single-argument named functions.
#[derive(Clone, Copy, Debug, PartialEq, Eq, Structural)]
pub enum UnaryFn {
    Abs,
    Ceil,
    Floor,
}

/// The closed set of variadic aggregation functions.
#[derive(Clone, Copy, Debug, PartialEq, Eq, Structural)]
pub enum AggregateFn {
    Min,
    Max,
    Avg,
}

/// The operator symbol that the tokenizer reads as the given operator.
pub open spec fn arith_op_char(op: ArithOp) -> char {
    match op {
        ArithOp::Plus => '+',
        ArithOp::Minus => '-',
        ArithOp::Mult => '*',
        ArithOp::Div => '/',
    }
}

/// The name under which the tokenizer recognizes the given unary function.
pub open spec fn unary_fn_name(f: UnaryFn) -> Seq<char> {
    match f {
        UnaryFn::Abs => "abs"@,
        UnaryFn::Ceil => "ceil"@,
        UnaryFn::Floor => "floor"@,
    }
}

/// The name under which the tokenizer recognizes the given aggregation function.
pub open spec fn aggregate_fn_name(f: AggregateFn) -> Seq<char> {
    match f {
        AggregateFn::Min => "min"@,
        AggregateFn::Max => "max"@,
        AggregateFn::Avg => "avg"@,
    }
}

/// The unary function with the given name, if there is one.
pub open spec fn spec_unary_fn_of_name(name: Seq<char>) -> Option<UnaryFn> {
    if name == unary_fn_name(UnaryFn::Abs) {
        Some(UnaryFn::Abs)
    } else if name == unary_fn_name(UnaryFn::Ceil) {
        Some(UnaryFn::Ceil)
    } else if name == unary_fn_name(UnaryFn::Floor) {
        Some(UnaryFn::Floor)
    } else {
        None
    }
}

/// The aggregation function with the given name, if there is one.
pub open spec fn spec_aggregate_fn_of_name(name: Seq<char>) -> Option<AggregateFn> {
    if name == aggregate_fn_name(AggregateFn::Min) {
        Some(AggregateFn::Min)
    } else if name == aggregate_fn_name(AggregateFn::Max) {
        Some(AggregateFn::Max)
    } else if name == aggregate_fn_name(AggregateFn::Avg) {
        Some(AggregateFn::Avg)
    } else {
        None
    }
}

/// The symbol of the given operator, executably.
pub fn arith_op_symbol(op: ArithOp) -> (c: char)
    ensures
        c == arith_op_char(op),
{
    match op {
        ArithOp::Plus => '+',
        ArithOp::Minus => '-',
        ArithOp::Mult => '*',
        ArithOp::Div => '/',
    }
}

/// The name of the given unary function, executably.
pub fn unary_fn_str(f: UnaryFn) -> (s: &'static str)
    ensures
        s@ == unary_fn_name(f),
{
    match f {
        UnaryFn::Abs => "abs",
        UnaryFn::Ceil => "ceil",
        UnaryFn::Floor => "floor",
    }
}

/// The name of the given aggregation function, executably.
pub fn aggregate_fn_str(f: AggregateFn) -> (s: &'static str)
    ensures
        s@ == aggregate_fn_name(f),
{
    match f {
        AggregateFn::Min => "min",
        AggregateFn::Max => "max",
        AggregateFn::Avg => "avg",
    }
}

/// Looks the given name up in the unary function vocabulary.
pub fn unary_fn_of_name(name: &String) -> (r: Option<UnaryFn>)
    ensures
        r == spec_unary_fn_of_name(name@),
{
    if name.eq(&String::from_str("abs")) {
        Some(UnaryFn::Abs)
    } else if name.eq(&String::from_str("ceil")) {
        Some(UnaryFn::Ceil)
    } else if name.eq(&String::from_str("floor")) {
        Some(UnaryFn::Floor)
    } else {
        None
    }
}

/// Looks the given name up in the aggregation function vocabulary.
pub fn aggregate_fn_of_name(name: &String) -> (r: Option<AggregateFn>)
    ensures
        r == spec_aggregate_fn_of_name(name@),
{
    if name.eq(&String::from_str("min")) {
        Some(AggregateFn::Min)
    } else if name.eq(&String::from_str("max")) {
        Some(AggregateFn::Max)
    } else if name.eq(&String::from_str("avg")) {
        Some(AggregateFn::Avg)
    } else {
        None
    }
}

} // verus!
