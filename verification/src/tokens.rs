//! The token tree: the intermediate representation between formula text and
//! the expression tree, together with its mathematical model and the size
//! measure that the recursive parser decreases on.

use crate::enums::ArithOp;
use crate::enums::AggregateFn;
use crate::enums::UnaryFn;
use vstd::prelude::*;

verus! {

broadcast use vstd::std_specs::vec::axiom_vec_index_decreases, vstd::std_specs::vec::axiom_vec_decreases_to_view;

/// An atomic token: an integer constant or a bare name.
#[derive(Debug, PartialEq, Eq)]
pub enum Literal {
    Int(i32),
    Str(String),
}

/// One token of a tokenized formula. `Unary` and `Aggregate` wrap the
/// argument group(s) of a recognized function call; `TokenList` is a
/// parenthesized sub-sequence (plain grouping or a single function argument).
#[derive(Debug, PartialEq, Eq)]
pub enum BmaFnToken {
    Binary(ArithOp),
    Atomic(Literal),
    Unary(UnaryFn, Box<BmaFnToken>),
    Aggregate(AggregateFn, Vec<BmaFnToken>),
    TokenList(Vec<BmaFnToken>),
}

/// The mathematical model of a token: integers are unbounded, strings are
/// character sequences, and nested groups are sequences of models.
pub enum TokenModel {
    Binary(ArithOp),
    Int(int),
    Name(Seq<char>),
    Unary(UnaryFn, Box<TokenModel>),
    Aggregate(AggregateFn, Seq<TokenModel>),
    TokenList(Seq<TokenModel>),
}

impl DeepView for Literal {
    type V = TokenModel;

    open spec fn deep_view(&self) -> TokenModel {
        match self {
            Literal::Int(n) => TokenModel::Int(*n as int),
            Literal::Str(s) => TokenModel::Name(s@),
        }
    }
}

/// The model of a single token.
pub open spec fn token_model(t: BmaFnToken) -> TokenModel
    decreases t,
{
    match t {
        BmaFnToken::Binary(op) => TokenModel::Binary(op),
        BmaFnToken::Atomic(lit) => lit.deep_view(),
        BmaFnToken::Unary(f, arg) => TokenModel::Unary(f, Box::new(token_model(*arg))),
        BmaFnToken::Aggregate(f, args) => TokenModel::Aggregate(f, token_models(args@)),
        BmaFnToken::TokenList(ts) => TokenModel::TokenList(token_models(ts@)),
    }
}

/// The models of a sequence of tokens, in order.
pub open spec fn token_models(ts: Seq<BmaFnToken>) -> Seq<TokenModel>
    decreases ts,
{
    if ts.len() == 0 {
        Seq::empty()
    } else {
        seq![token_model(ts[0])] + token_models(ts.drop_first())
    }
}

/// `token_models` maps the sequence element by element.
pub proof fn lemma_token_models(ts: Seq<BmaFnToken>)
    ensures
        token_models(ts).len() == ts.len(),
        forall|i: int| 0 <= i < ts.len() ==> token_models(ts)[i] == token_model(#[trigger] ts[i]),
    decreases ts,
{
    if ts.len() > 0 {
        lemma_token_models(ts.drop_first());
        assert forall|i: int| 0 <= i < ts.len() implies token_models(ts)[i] == token_model(
            #[trigger] ts[i],
        ) by {
            if i > 0 {
                assert(ts.drop_first()[i - 1] == ts[i]);
                assert(token_models(ts)[i] == token_models(ts.drop_first())[i - 1]);
            }
        }
    }
}

impl DeepView for BmaFnToken {
    type V = TokenModel;

    open spec fn deep_view(&self) -> TokenModel {
        token_model(*self)
    }
}

/// The size of a token: itself plus everything nested inside it.
pub open spec fn tok_size(t: TokenModel) -> nat
    decreases t,
{
    match t {
        TokenModel::Unary(_, arg) => 1 + tok_size(*arg),
        TokenModel::Aggregate(_, args) => 1 + toks_size(args),
        TokenModel::TokenList(ts) => 1 + toks_size(ts),
        _ => 1,
    }
}

/// The total size of a token sequence.
pub open spec fn toks_size(ts: Seq<TokenModel>) -> nat
    decreases ts,
{
    if ts.len() == 0 {
        0
    } else {
        tok_size(ts[0]) + toks_size(ts.drop_first())
    }
}

/// Sizes add over concatenation of token sequences.
pub proof fn lemma_toks_size_add(a: Seq<TokenModel>, b: Seq<TokenModel>)
    ensures
        toks_size(a + b) == toks_size(a) + toks_size(b),
    decreases a.len(),
{
    if a.len() == 0 {
        assert(a + b =~= b);
    } else {
        assert((a + b).drop_first() =~= a.drop_first() + b);
        lemma_toks_size_add(a.drop_first(), b);
    }
}

/// Splitting a token sequence at position `i` splits its size accordingly.
pub proof fn lemma_toks_size_split(ts: Seq<TokenModel>, i: int)
    requires
        0 <= i < ts.len(),
    ensures
        toks_size(ts) == toks_size(ts.take(i)) + tok_size(ts[i]) + toks_size(ts.skip(i + 1)),
{
    assert(ts =~= ts.take(i) + seq![ts[i]] + ts.skip(i + 1));
    lemma_toks_size_add(ts.take(i) + seq![ts[i]], ts.skip(i + 1));
    lemma_toks_size_add(ts.take(i), seq![ts[i]]);
    assert(toks_size(seq![ts[i]]) == tok_size(ts[i]) + toks_size(seq![ts[i]].drop_first()));
    assert(seq![ts[i]].drop_first() =~= Seq::<TokenModel>::empty());
}

/// Appending a token appends its model.
pub proof fn lemma_token_models_push(ts: Seq<BmaFnToken>, t: BmaFnToken)
    ensures
        token_models(ts.push(t)) == token_models(ts).push(token_model(t)),
{
    lemma_token_models(ts);
    lemma_token_models(ts.push(t));
    assert forall|i: int| 0 <= i < ts.len() + 1 implies token_models(ts.push(t))[i]
        == token_models(ts).push(token_model(t))[i] by {
        if i < ts.len() {
            assert(ts.push(t)[i] == ts[i]);
        } else {
            assert(ts.push(t)[i] == t);
        }
    }
    assert(token_models(ts.push(t)) =~= token_models(ts).push(token_model(t)));
}

/// Taking models commutes with taking a subrange.
pub proof fn lemma_token_models_subrange(ts: Seq<BmaFnToken>, a: int, b: int)
    requires
        0 <= a <= b <= ts.len(),
    ensures
        token_models(ts.subrange(a, b)) == token_models(ts).subrange(a, b),
{
    lemma_token_models(ts);
    lemma_token_models(ts.subrange(a, b));
    assert forall|i: int| 0 <= i < b - a implies token_models(ts.subrange(a, b))[i]
        == token_models(ts).subrange(a, b)[i] by {
        assert(ts.subrange(a, b)[i] == ts[a + i]);
    }
    assert(token_models(ts.subrange(a, b)) =~= token_models(ts).subrange(a, b));
}

/// The size of an element is bounded by the size of the whole sequence.
pub proof fn lemma_toks_size_elem(ts: Seq<TokenModel>, i: int)
    requires
        0 <= i < ts.len(),
    ensures
        tok_size(ts[i]) <= toks_size(ts),
    decreases i,
{
    if i == 0 {
    } else {
        lemma_toks_size_elem(ts.drop_first(), i - 1);
        assert(ts.drop_first()[i - 1] == ts[i]);
    }
}

} // verus!
