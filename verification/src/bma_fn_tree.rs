//! The expression tree that parsing produces, its mathematical model, and the
//! factory operations that build tree nodes. The factories never fail; all
//! rejection happens in the parser.

use crate::enums::ArithOp;
use crate::enums::AggregateFn;
use crate::enums::UnaryFn;
use vstd::prelude::*;

verus! {

broadcast use vstd::std_specs::vec::axiom_vec_index_decreases, vstd::std_specs::vec::axiom_vec_decreases_to_view;

/// One node of a parsed formula. Every child is exclusively owned; arithmetic
/// nodes have exactly two children, unary applications exactly one, and
/// aggregations any number.
#[derive(Debug, PartialEq, Eq)]
pub enum BmaFnUpdate {
    Constant(i32),
    Variable(String),
    Arithmetic(Box<BmaFnUpdate>, Box<BmaFnUpdate>, ArithOp),
    UnaryApply(Box<BmaFnUpdate>, UnaryFn),
    Aggregation(AggregateFn, Vec<BmaFnUpdate>),
}

/// The mathematical model of an expression tree.
pub enum ExprModel {
    Constant(int),
    Variable(Seq<char>),
    Arithmetic(Box<ExprModel>, Box<ExprModel>, ArithOp),
    UnaryApply(Box<ExprModel>, UnaryFn),
    Aggregation(AggregateFn, Seq<ExprModel>),
}

/// The model of a single expression node.
pub open spec fn expr_model(e: BmaFnUpdate) -> ExprModel
    decreases e,
{
    match e {
        BmaFnUpdate::Constant(n) => ExprModel::Constant(n as int),
        BmaFnUpdate::Variable(name) => ExprModel::Variable(name@),
        BmaFnUpdate::Arithmetic(l, r, op) => ExprModel::Arithmetic(
            Box::new(expr_model(*l)),
            Box::new(expr_model(*r)),
            op,
        ),
        BmaFnUpdate::UnaryApply(child, f) => ExprModel::UnaryApply(Box::new(expr_model(*child)), f),
        BmaFnUpdate::Aggregation(f, args) => ExprModel::Aggregation(f, expr_models(args@)),
    }
}

/// The models of a sequence of expressions, in order.
pub open spec fn expr_models(es: Seq<BmaFnUpdate>) -> Seq<ExprModel>
    decreases es,
{
    if es.len() == 0 {
        Seq::empty()
    } else {
        seq![expr_model(es[0])] + expr_models(es.drop_first())
    }
}

/// Models distribute over concatenation of expression sequences.
pub proof fn lemma_expr_models_add(a: Seq<BmaFnUpdate>, b: Seq<BmaFnUpdate>)
    ensures
        expr_models(a + b) == expr_models(a) + expr_models(b),
    decreases a.len(),
{
    if a.len() == 0 {
        assert(a + b =~= b);
        assert(expr_models(a) + expr_models(b) =~= expr_models(b));
    } else {
        assert((a + b).len() > 0);
        assert((a + b)[0] == a[0]);
        assert((a + b).drop_first() =~= a.drop_first() + b);
        lemma_expr_models_add(a.drop_first(), b);
        assert(expr_models(a) + expr_models(b) =~= seq![expr_model(a[0])] + (expr_models(
            a.drop_first(),
        ) + expr_models(b)));
    }
}

/// Appending an expression appends its model.
pub proof fn lemma_expr_models_push(es: Seq<BmaFnUpdate>, e: BmaFnUpdate)
    ensures
        expr_models(es.push(e)) == expr_models(es).push(expr_model(e)),
{
    assert(es.push(e) =~= es + seq![e]);
    lemma_expr_models_add(es, seq![e]);
    assert(seq![e].drop_first() =~= Seq::<BmaFnUpdate>::empty());
    assert(expr_models(seq![e]) == seq![expr_model(e)] + expr_models(seq![e].drop_first()));
    assert(expr_models(es) + expr_models(seq![e]) =~= expr_models(es).push(expr_model(e)));
}

impl DeepView for BmaFnUpdate {
    type V = ExprModel;

    open spec fn deep_view(&self) -> ExprModel {
        expr_model(*self)
    }
}

impl BmaFnUpdate {
    /// Builds a constant node.
    pub fn mk_constant(value: i32) -> (r: BmaFnUpdate)
        ensures
            r.deep_view() == ExprModel::Constant(value as int),
    {
        BmaFnUpdate::Constant(value)
    }

    /// Builds a variable-reference node.
    pub fn mk_variable(name: &str) -> (r: BmaFnUpdate)
        ensures
            r.deep_view() == ExprModel::Variable(name@),
    {
        BmaFnUpdate::Variable(name.to_owned())
    }

    /// Builds a binary arithmetic node from its two operands.
    pub fn mk_arithmetic(left: BmaFnUpdate, right: BmaFnUpdate, op: ArithOp) -> (r: BmaFnUpdate)
        ensures
            r.deep_view() == ExprModel::Arithmetic(
                Box::new(left.deep_view()),
                Box::new(right.deep_view()),
                op,
            ),
    {
        BmaFnUpdate::Arithmetic(Box::new(left), Box::new(right), op)
    }

    /// Builds a unary function application node.
    pub fn mk_unary(child: BmaFnUpdate, f: UnaryFn) -> (r: BmaFnUpdate)
        ensures
            r.deep_view() == ExprModel::UnaryApply(Box::new(child.deep_view()), f),
    {
        BmaFnUpdate::UnaryApply(Box::new(child), f)
    }

    /// Builds an aggregation node over an ordered list of operands.
    pub fn mk_aggregation(f: AggregateFn, args: Vec<BmaFnUpdate>) -> (r: BmaFnUpdate)
        ensures
            r.deep_view() == ExprModel::Aggregation(f, expr_models(args@)),
    {
        BmaFnUpdate::Aggregation(f, args)
    }
}

} // verus!
