//! The five-level recursive-descent parser. Each level scans its token
//! sequence left to right for the first occurrence of its operator, parses
//! the prefix at the next tighter level and the suffix at the same level
//! (so chains of one operator nest to the right), and the final level
//! resolves atoms. The precedence order — division loosest, then
//! multiplication, then subtraction, then addition — is the formula
//! language's own and is preserved exactly.

use crate::bma_fn_tree::BmaFnUpdate;
use crate::bma_fn_tree::ExprModel;
use crate::bma_fn_tree::expr_model;
use crate::bma_fn_tree::expr_models;
use crate::bma_fn_tree::lemma_expr_models_push;
use crate::enums::ArithOp;
use crate::errors::FormulaError;
use crate::errors::error_message;
use crate::errors::msg_argument_not_grouped;
use crate::errors::msg_empty_formula;
use crate::errors::msg_malformed_formula;
use crate::tokens::BmaFnToken;
use crate::tokens::Literal;
use crate::tokens::TokenModel;
use crate::tokens::lemma_token_models;
use crate::tokens::lemma_token_models_subrange;
use crate::tokens::lemma_toks_size_elem;
use crate::tokens::lemma_toks_size_split;
use crate::tokens::token_model;
use crate::tokens::token_models;
use crate::tokens::tok_size;
use crate::tokens::toks_size;
use vstd::prelude::*;
use vstd::slice::slice_index_get;
use vstd::slice::slice_subrange;

verus! {

/// The operator that parsing level `k` extracts (level 5 handles atoms).
pub open spec fn level_op(k: int) -> ArithOp {
    if k == 1 {
        ArithOp::Div
    } else if k == 2 {
        ArithOp::Mult
    } else if k == 3 {
        ArithOp::Minus
    } else {
        ArithOp::Plus
    }
}

/// The position of the first `Binary(op)` token, or the length if none occurs.
pub open spec fn first_op_index(ts: Seq<TokenModel>, op: ArithOp) -> int
    decreases ts,
{
    if ts.len() == 0 {
        0
    } else if ts[0] == TokenModel::Binary(op) {
        0
    } else {
        1 + first_op_index(ts.drop_first(), op)
    }
}

/// `first_op_index` finds the first occurrence: nothing before it matches,
/// and it points at a match unless nothing matches at all.
pub proof fn lemma_first_op_index(ts: Seq<TokenModel>, op: ArithOp)
    ensures
        0 <= first_op_index(ts, op) <= ts.len(),
        first_op_index(ts, op) < ts.len() ==> ts[first_op_index(ts, op)] == TokenModel::Binary(op),
        forall|j: int|
            0 <= j < first_op_index(ts, op) ==> #[trigger] ts[j] != TokenModel::Binary(op),
    decreases ts,
{
    if ts.len() > 0 && ts[0] != TokenModel::Binary(op) {
        lemma_first_op_index(ts.drop_first(), op);
        assert forall|j: int| 0 <= j < first_op_index(ts, op) implies #[trigger] ts[j]
            != TokenModel::Binary(op) by {
            if j > 0 {
                assert(ts.drop_first()[j - 1] == ts[j]);
            }
        }
    }
}

/// Any position that matches with nothing matching before it is the first.
pub proof fn lemma_first_op_index_is(ts: Seq<TokenModel>, op: ArithOp, i: int)
    requires
        0 <= i <= ts.len(),
        i < ts.len() ==> ts[i] == TokenModel::Binary(op),
        i == ts.len() ==> forall|j: int|
            0 <= j < ts.len() ==> #[trigger] ts[j] != TokenModel::Binary(op),
        forall|j: int| 0 <= j < i ==> #[trigger] ts[j] != TokenModel::Binary(op),
    ensures
        first_op_index(ts, op) == i,
    decreases ts,
{
    if ts.len() > 0 && ts[0] != TokenModel::Binary(op) {
        assert forall|j: int| 0 <= j < i - 1 implies #[trigger] ts.drop_first()[j]
            != TokenModel::Binary(op) by {
            assert(ts.drop_first()[j] == ts[j + 1]);
        }
        assert forall|j: int|
            i - 1 == ts.drop_first().len() && 0 <= j
                < ts.drop_first().len() implies #[trigger] ts.drop_first()[j]
            != TokenModel::Binary(op) by {
            assert(ts.drop_first()[j] == ts[j + 1]);
        }
        lemma_first_op_index_is(ts.drop_first(), op, i - 1);
    }
}

/// What parsing a token sequence at level `k` yields: the expression tree or
/// the error, exactly. Levels 1 to 4 extract `/`, `*`, `-` and `+` in that
/// order; level 5 resolves the atoms.
pub open spec fn spec_parse_level(ts: Seq<TokenModel>, k: int) -> Result<ExprModel, FormulaError>
    decreases toks_size(ts), (if 1 <= k < 5 { 5 - k } else { 0int }),
    via spec_parse_level_decreases
{
    if 1 <= k < 5 {
        let op = level_op(k);
        let i = first_op_index(ts, op);
        if i < ts.len() {
            match spec_parse_level(ts.take(i), k + 1) {
                Err(e) => Err(e),
                Ok(left) => match spec_parse_level(ts.skip(i + 1), k) {
                    Err(e) => Err(e),
                    Ok(right) => Ok(
                        ExprModel::Arithmetic(Box::new(left), Box::new(right), op),
                    ),
                },
            }
        } else {
            spec_parse_level(ts, k + 1)
        }
    } else {
        if ts.len() == 0 {
            Err(FormulaError::EmptyFormula)
        } else if ts.len() == 1 {
            match ts[0] {
                TokenModel::Name(name) => Ok(ExprModel::Variable(name)),
                TokenModel::Int(num) => Ok(ExprModel::Constant(num)),
                TokenModel::Aggregate(f, args) => match spec_parse_args(args) {
                    Err(e) => Err(e),
                    Ok(es) => Ok(ExprModel::Aggregation(f, es)),
                },
                TokenModel::Unary(f, arg) => match *arg {
                    TokenModel::TokenList(inner) => match spec_parse_level(inner, 1) {
                        Err(e) => Err(e),
                        Ok(child) => Ok(ExprModel::UnaryApply(Box::new(child), f)),
                    },
                    _ => Err(FormulaError::ArgumentNotGrouped),
                },
                TokenModel::TokenList(inner) => spec_parse_level(inner, 1),
                TokenModel::Binary(_) => Err(FormulaError::MalformedFormula(ts)),
            }
        } else {
            Err(FormulaError::MalformedFormula(ts))
        }
    }
}

/// What parsing the argument groups of an aggregation yields: each group
/// must be a `TokenList`, whose contents parse as a full formula.
pub open spec fn spec_parse_args(args: Seq<TokenModel>) -> Result<Seq<ExprModel>, FormulaError>
    decreases toks_size(args), 5int,
    via spec_parse_args_decreases
{
    if args.len() == 0 {
        Ok(Seq::empty())
    } else {
        match args[0] {
            TokenModel::TokenList(inner) => match spec_parse_level(inner, 1) {
                Err(e) => Err(e),
                Ok(head) => match spec_parse_args(args.drop_first()) {
                    Err(e) => Err(e),
                    Ok(tail) => Ok(seq![head] + tail),
                },
            },
            _ => Err(FormulaError::ArgumentNotGrouped),
        }
    }
}

#[via_fn]
proof fn spec_parse_level_decreases(ts: Seq<TokenModel>, k: int) {
    if 1 <= k < 5 {
        let i = first_op_index(ts, level_op(k));
        lemma_first_op_index(ts, level_op(k));
        if i < ts.len() {
            lemma_toks_size_split(ts, i);
        }
    } else {
        if ts.len() == 1 {
            assert(toks_size(ts) == tok_size(ts[0]) + toks_size(ts.drop_first()));
            assert(ts.drop_first() =~= Seq::<TokenModel>::empty());
            assert(toks_size(ts.drop_first()) == 0);
            match ts[0] {
                TokenModel::Unary(f, arg) => {
                    assert(tok_size(ts[0]) == 1 + tok_size(*arg));
                    match *arg {
                        TokenModel::TokenList(inner) => {
                            assert(tok_size(*arg) == 1 + toks_size(inner));
                        },
                        _ => {},
                    }
                },
                _ => {},
            }
        }
    }
}

#[via_fn]
proof fn spec_parse_args_decreases(args: Seq<TokenModel>) {
    if args.len() > 0 {
        lemma_toks_size_elem(args, 0);
    }
}

/// What parsing a whole token sequence yields.
pub open spec fn spec_parse(ts: Seq<TokenModel>) -> Result<ExprModel, FormulaError> {
    spec_parse_level(ts, 1)
}

/// Prepends already-parsed argument expressions to the outcome of parsing
/// the remaining argument groups.
pub open spec fn args_combine(prefix: Seq<ExprModel>, r: Result<Seq<ExprModel>, FormulaError>)
    -> Result<Seq<ExprModel>, FormulaError> {
    match r {
        Ok(es) => Ok(prefix + es),
        Err(e) => Err(e),
    }
}

/// An empty prefix combines to the outcome itself.
proof fn lemma_args_combine_empty(r: Result<Seq<ExprModel>, FormulaError>)
    ensures
        args_combine(Seq::empty(), r) == r,
{
    match r {
        Ok(es) => {
            assert(Seq::<ExprModel>::empty() + es =~= es);
        },
        Err(_) => {},
    }
}

/// Moving the head argument expression into the prefix preserves the
/// combined outcome.
proof fn lemma_args_combine_step(
    prefix: Seq<ExprModel>,
    head: ExprModel,
    r: Result<Seq<ExprModel>, FormulaError>,
)
    ensures
        args_combine(
            prefix,
            match r {
                Ok(tail) => Ok(seq![head] + tail),
                Err(e) => Err(e),
            },
        ) == args_combine(prefix.push(head), r),
{
    match r {
        Ok(tail) => {
            assert(prefix + (seq![head] + tail) =~= prefix.push(head) + tail);
        },
        Err(_) => {},
    }
}

/// The executable result `r` is exactly what level-`k` parsing of `ts`
/// yields: the same tree on success, the error's exact message on failure.
pub open spec fn level_outcome(ts: Seq<TokenModel>, k: int, r: Result<
    BmaFnUpdate,
    String,
>) -> bool {
    match spec_parse_level(ts, k) {
        Ok(e) => match r {
            Ok(node) => expr_model(node) == e,
            Err(_) => false,
        },
        Err(err) => match r {
            Ok(_) => false,
            Err(msg) => msg@ == error_message(err),
        },
    }
}

/// Utility method to find the first occurrence of the given operator's token.
fn index_of_first(tokens: &[BmaFnToken], op: ArithOp) -> (r: Option<usize>)
    ensures
        match r {
            Some(i) => i < tokens@.len() && first_op_index(token_models(tokens@), op) == i,
            None => first_op_index(token_models(tokens@), op) == tokens@.len() as int,
        },
{
    proof {
        lemma_token_models(tokens@);
    }
    let ghost ts = token_models(tokens@);
    let mut j: usize = 0;
    while j < tokens.len()
        invariant
            0 <= j <= tokens@.len(),
            ts == token_models(tokens@),
            ts.len() == tokens@.len(),
            forall|j2: int| 0 <= j2 < j ==> #[trigger] ts[j2] != TokenModel::Binary(op),
        decreases tokens@.len() - j,
    {
        let t = slice_index_get(tokens, j);
        proof {
            lemma_token_models(tokens@);
            assert(ts[j as int] == token_model(tokens@[j as int]));
        }
        let is_match = match t {
            BmaFnToken::Binary(o) => *o == op,
            _ => false,
        };
        if is_match {
            proof {
                lemma_first_op_index_is(ts, op, j as int);
            }
            return Some(j);
        }
        j = j + 1;
    }
    proof {
        lemma_first_op_index_is(ts, op, tokens@.len() as int);
    }
    None
}

/// Parse `tokens` of an update-function formula into an abstract syntax tree
/// using recursive steps.
pub fn parse_bma_fn_tokens(tokens: &[BmaFnToken]) -> (r: Result<BmaFnUpdate, String>)
    ensures
        level_outcome(token_models(tokens@), 1, r),
        match spec_parse(token_models(tokens@)) {
            Ok(_) => r is Ok,
            Err(_) => r is Err,
        },
    decreases toks_size(token_models(tokens@)), 5int,
{
    parse_1_div(tokens)
}

/// Recursive parsing step 1: extract `/` operators.
fn parse_1_div(tokens: &[BmaFnToken]) -> (r: Result<BmaFnUpdate, String>)
    ensures
        level_outcome(token_models(tokens@), 1, r),
    decreases toks_size(token_models(tokens@)), 4int,
{
    let ghost ts = token_models(tokens@);
    proof {
        lemma_token_models(tokens@);
        lemma_first_op_index(ts, ArithOp::Div);
    }
    let n = tokens.len();
    match index_of_first(tokens, ArithOp::Div) {
        Some(i) => {
            let prefix = slice_subrange(tokens, 0, i);
            let suffix = slice_subrange(tokens, i + 1, n);
            proof {
                lemma_toks_size_split(ts, i as int);
                lemma_token_models_subrange(tokens@, 0, i as int);
                lemma_token_models_subrange(tokens@, i + 1, tokens@.len() as int);
                assert(ts.take(i as int) =~= ts.subrange(0, i as int));
                assert(ts.skip(i + 1) =~= ts.subrange(i + 1, ts.len() as int));
            }
            let left = match parse_2_mul(prefix) {
                Ok(node) => node,
                Err(message) => {
                    return Err(message);
                },
            };
            let right = match parse_1_div(suffix) {
                Ok(node) => node,
                Err(message) => {
                    return Err(message);
                },
            };
            Ok(BmaFnUpdate::mk_arithmetic(left, right, ArithOp::Div))
        },
        None => parse_2_mul(tokens),
    }
}

/// Recursive parsing step 2: extract `*` operators.
fn parse_2_mul(tokens: &[BmaFnToken]) -> (r: Result<BmaFnUpdate, String>)
    ensures
        level_outcome(token_models(tokens@), 2, r),
    decreases toks_size(token_models(tokens@)), 3int,
{
    let ghost ts = token_models(tokens@);
    proof {
        lemma_token_models(tokens@);
        lemma_first_op_index(ts, ArithOp::Mult);
    }
    let n = tokens.len();
    match index_of_first(tokens, ArithOp::Mult) {
        Some(i) => {
            let prefix = slice_subrange(tokens, 0, i);
            let suffix = slice_subrange(tokens, i + 1, n);
            proof {
                lemma_toks_size_split(ts, i as int);
                lemma_token_models_subrange(tokens@, 0, i as int);
                lemma_token_models_subrange(tokens@, i + 1, tokens@.len() as int);
                assert(ts.take(i as int) =~= ts.subrange(0, i as int));
                assert(ts.skip(i + 1) =~= ts.subrange(i + 1, ts.len() as int));
            }
            let left = match parse_3_minus(prefix) {
                Ok(node) => node,
                Err(message) => {
                    return Err(message);
                },
            };
            let right = match parse_2_mul(suffix) {
                Ok(node) => node,
                Err(message) => {
                    return Err(message);
                },
            };
            Ok(BmaFnUpdate::mk_arithmetic(left, right, ArithOp::Mult))
        },
        None => parse_3_minus(tokens),
    }
}

/// Recursive parsing step 3: extract `-` operators.
fn parse_3_minus(tokens: &[BmaFnToken]) -> (r: Result<BmaFnUpdate, String>)
    ensures
        level_outcome(token_models(tokens@), 3, r),
    decreases toks_size(token_models(tokens@)), 2int,
{
    let ghost ts = token_models(tokens@);
    proof {
        lemma_token_models(tokens@);
        lemma_first_op_index(ts, ArithOp::Minus);
    }
    let n = tokens.len();
    match index_of_first(tokens, ArithOp::Minus) {
        Some(i) => {
            let prefix = slice_subrange(tokens, 0, i);
            let suffix = slice_subrange(tokens, i + 1, n);
            proof {
                lemma_toks_size_split(ts, i as int);
                lemma_token_models_subrange(tokens@, 0, i as int);
                lemma_token_models_subrange(tokens@, i + 1, tokens@.len() as int);
                assert(ts.take(i as int) =~= ts.subrange(0, i as int));
                assert(ts.skip(i + 1) =~= ts.subrange(i + 1, ts.len() as int));
            }
            let left = match parse_4_plus(prefix) {
                Ok(node) => node,
                Err(message) => {
                    return Err(message);
                },
            };
            let right = match parse_3_minus(suffix) {
                Ok(node) => node,
                Err(message) => {
                    return Err(message);
                },
            };
            Ok(BmaFnUpdate::mk_arithmetic(left, right, ArithOp::Minus))
        },
        None => parse_4_plus(tokens),
    }
}

/// Recursive parsing step 4: extract `+` operators.
fn parse_4_plus(tokens: &[BmaFnToken]) -> (r: Result<BmaFnUpdate, String>)
    ensures
        level_outcome(token_models(tokens@), 4, r),
    decreases toks_size(token_models(tokens@)), 1int,
{
    let ghost ts = token_models(tokens@);
    proof {
        lemma_token_models(tokens@);
        lemma_first_op_index(ts, ArithOp::Plus);
    }
    let n = tokens.len();
    match index_of_first(tokens, ArithOp::Plus) {
        Some(i) => {
            let prefix = slice_subrange(tokens, 0, i);
            let suffix = slice_subrange(tokens, i + 1, n);
            proof {
                lemma_toks_size_split(ts, i as int);
                lemma_token_models_subrange(tokens@, 0, i as int);
                lemma_token_models_subrange(tokens@, i + 1, tokens@.len() as int);
                assert(ts.take(i as int) =~= ts.subrange(0, i as int));
                assert(ts.skip(i + 1) =~= ts.subrange(i + 1, ts.len() as int));
            }
            let left = match parse_5_others(prefix) {
                Ok(node) => node,
                Err(message) => {
                    return Err(message);
                },
            };
            let right = match parse_4_plus(suffix) {
                Ok(node) => node,
                Err(message) => {
                    return Err(message);
                },
            };
            Ok(BmaFnUpdate::mk_arithmetic(left, right, ArithOp::Plus))
        },
        None => parse_5_others(tokens),
    }
}

/// Recursive parsing step 5: resolve literals and recursively solve
/// sub-formulae in parentheses and in function arguments.
fn parse_5_others(tokens: &[BmaFnToken]) -> (r: Result<BmaFnUpdate, String>)
    ensures
        level_outcome(token_models(tokens@), 5, r),
    decreases toks_size(token_models(tokens@)), 0int,
{
    let ghost ts = token_models(tokens@);
    proof {
        lemma_token_models(tokens@);
    }
    if tokens.len() == 0 {
        Err(msg_empty_formula())
    } else if tokens.len() == 1 {
        let t = slice_index_get(tokens, 0);
        proof {
            assert(ts[0] == token_model(tokens@[0]));
            assert(ts =~= seq![ts[0]]);
        }
        match t {
            BmaFnToken::Atomic(Literal::Str(name)) => Ok(BmaFnUpdate::mk_variable(name.as_str())),
            BmaFnToken::Atomic(Literal::Int(num)) => Ok(BmaFnUpdate::mk_constant(*num)),
            BmaFnToken::Aggregate(operator, arguments) => {
                let ghost ams = token_models(arguments@);
                proof {
                    lemma_token_models(arguments@);
                }
                let mut arg_expression_nodes: Vec<BmaFnUpdate> = Vec::new();
                let mut i: usize = 0;
                proof {
                    assert(toks_size(ts) == tok_size(ts[0]) + toks_size(ts.drop_first()));
                    assert(ts.drop_first() =~= Seq::<TokenModel>::empty());
                    assert(ams.skip(0) =~= ams);
                    assert(expr_models(arg_expression_nodes@) =~= Seq::<ExprModel>::empty());
                    lemma_args_combine_empty(spec_parse_args(ams));
                }
                while i < arguments.len()
                    invariant
                        0 <= i <= arguments@.len(),
                        ams == token_models(arguments@),
                        ams.len() == arguments@.len(),
                        forall|j: int| 0 <= j < arguments@.len() ==> #[trigger] ams[j]
                            == token_model(arguments@[j]),
                        toks_size(ams) < toks_size(ts),
                        ts == token_models(tokens@),
                        ts.len() == 1,
                        ts[0] == TokenModel::Aggregate(*operator, ams),
                        spec_parse_args(ams) == args_combine(
                            expr_models(arg_expression_nodes@),
                            spec_parse_args(ams.skip(i as int)),
                        ),
                    decreases arguments@.len() - i,
                {
                    let inner = vstd::slice::slice_index_get(arguments.as_slice(), i);
                    proof {
                        assert(ams.skip(i as int)[0] == ams[i as int]);
                        assert(ams.skip(i as int).drop_first() =~= ams.skip(i + 1));
                        lemma_toks_size_elem(ams, i as int);
                    }
                    match inner {
                        BmaFnToken::TokenList(inner_token_list) => {
                            proof {
                                lemma_token_models(inner_token_list@);
                                assert(ams[i as int] == TokenModel::TokenList(
                                    token_models(inner_token_list@),
                                ));
                                assert(tok_size(ams[i as int]) == 1 + toks_size(
                                    token_models(inner_token_list@),
                                ));
                            }
                            let parsed = match parse_bma_fn_tokens(inner_token_list.as_slice()) {
                                Ok(node) => node,
                                Err(message) => {
                                    return Err(message);
                                },
                            };
                            let ghost old_nodes = arg_expression_nodes@;
                            arg_expression_nodes.push(parsed);
                            proof {
                                assert(arg_expression_nodes@ =~= old_nodes.push(parsed));
                                lemma_expr_models_push(old_nodes, parsed);
                                lemma_args_combine_step(
                                    expr_models(old_nodes),
                                    expr_model(parsed),
                                    spec_parse_args(ams.skip(i + 1)),
                                );
                            }
                            i = i + 1;
                        },
                        _ => {
                            return Err(msg_argument_not_grouped());
                        },
                    }
                }
                proof {
                    assert(ams.skip(i as int) =~= Seq::<TokenModel>::empty());
                    assert(expr_models(arg_expression_nodes@) + Seq::<ExprModel>::empty()
                        =~= expr_models(arg_expression_nodes@));
                }
                Ok(BmaFnUpdate::mk_aggregation(*operator, arg_expression_nodes))
            },
            BmaFnToken::Unary(operator, argument) => match &**argument {
                BmaFnToken::TokenList(inner_token_list) => {
                    proof {
                        lemma_token_models(inner_token_list@);
                        assert(toks_size(ts) == tok_size(ts[0]) + toks_size(ts.drop_first()));
                        assert(ts.drop_first() =~= Seq::<TokenModel>::empty());
                        assert(token_model(tokens@[0]) == TokenModel::Unary(
                            *operator,
                            Box::new(token_model(**argument)),
                        ));
                        assert(token_model(**argument) == TokenModel::TokenList(
                            token_models(inner_token_list@),
                        ));
                        assert(tok_size(ts[0]) == 1 + tok_size(token_model(**argument)));
                        assert(tok_size(token_model(**argument)) == 1 + toks_size(
                            token_models(inner_token_list@),
                        ));
                    }
                    let parsed = match parse_bma_fn_tokens(inner_token_list.as_slice()) {
                        Ok(node) => node,
                        Err(message) => {
                            return Err(message);
                        },
                    };
                    Ok(BmaFnUpdate::mk_unary(parsed, *operator))
                },
                _ => Err(msg_argument_not_grouped()),
            },
            BmaFnToken::TokenList(inner) => {
                proof {
                    lemma_token_models(inner@);
                    assert(toks_size(ts) == tok_size(ts[0]) + toks_size(ts.drop_first()));
                    assert(ts.drop_first() =~= Seq::<TokenModel>::empty());
                    assert(ts[0] == TokenModel::TokenList(token_models(inner@)));
                }
                parse_bma_fn_tokens(inner.as_slice())
            },
            _ => Err(msg_malformed_formula(tokens)),
        }
    } else {
        Err(msg_malformed_formula(tokens))
    }
}

/// What parsing a whole formula text yields: the expression tree, or the
/// first error met while tokenizing or parsing.
pub open spec fn spec_parse_formula(s: Seq<char>) -> Result<ExprModel, FormulaError> {
    match crate::tokenizer::spec_tokenize(s) {
        Err(e) => Err(e),
        Ok(ts) => spec_parse(ts),
    }
}

/// The executable result `r` is exactly what parsing the text `s` yields:
/// the same tree on success, the error's exact message on failure.
pub open spec fn formula_outcome(s: Seq<char>, r: Result<BmaFnUpdate, String>) -> bool {
    match spec_parse_formula(s) {
        Ok(e) => match r {
            Ok(node) => expr_model(node) == e,
            Err(_) => false,
        },
        Err(err) => match r {
            Ok(_) => false,
            Err(msg) => msg@ == error_message(err),
        },
    }
}

/// Parse an update-function formula string representation into an actual
/// expression tree. Basically a wrapper for tokenize+parse.
pub fn parse_bma_formula(formula: &str) -> (r: Result<BmaFnUpdate, String>)
    ensures
        formula_outcome(formula@, r),
{
    let tokens = match crate::tokenizer::try_tokenize_bma_formula(formula.to_owned()) {
        Ok(tokens) => tokens,
        Err(message) => {
            return Err(message);
        },
    };
    let tree = match parse_bma_fn_tokens(tokens.as_slice()) {
        Ok(tree) => tree,
        Err(message) => {
            return Err(message);
        },
    };
    Ok(tree)
}

/// Parsing is total and deterministic: any two results for the same text
/// agree exactly — the identical tree, or the identical error message.
pub proof fn lemma_parse_deterministic(
    s: Seq<char>,
    r1: Result<BmaFnUpdate, String>,
    r2: Result<BmaFnUpdate, String>,
)
    requires
        formula_outcome(s, r1),
        formula_outcome(s, r2),
    ensures
        r1 is Ok <==> r2 is Ok,
        r1 is Ok ==> expr_model(r1->Ok_0) == expr_model(r2->Ok_0),
        r1 is Err ==> (r1->Err_0)@ == (r2->Err_0)@,
{
}

/// The decimal text of any integer the constant type can hold parses to
/// exactly that constant.
pub proof fn lemma_parse_decimal_constant(n: int)
    requires
        0 <= n <= i32::MAX,
    ensures
        spec_parse_formula(crate::errors::dec_digits(n as nat)) == Ok::<
            ExprModel,
            FormulaError,
        >(ExprModel::Constant(n)),
{
    let s = crate::errors::dec_digits(n as nat);
    crate::tokenizer::lemma_dec_digits_value(n as nat);
    crate::tokenizer::lemma_digit_run_end_all(s, 0);
    let c = s[0];
    assert(crate::tokenizer::is_digit_char(c));
    assert(!crate::tokenizer::is_space_char(c));
    assert(c != ')' && c != ',' && c != '(');
    assert(crate::tokenizer::spec_arith_op_of(c) is None);
    assert(s.subrange(0, s.len() as int) =~= s);
    assert(crate::tokenizer::spec_scan(s, s.len() as int, crate::tokenizer::Mode::Top) == Ok::<
        (Seq<TokenModel>, int, bool),
        FormulaError,
    >((Seq::empty(), s.len() as int, false)));
    let ts = seq![TokenModel::Int(n)];
    assert(crate::tokenizer::spec_scan(s, 0, crate::tokenizer::Mode::Top) == Ok::<
        (Seq<TokenModel>, int, bool),
        FormulaError,
    >((ts + Seq::empty(), s.len() as int, false)));
    assert(ts + Seq::<TokenModel>::empty() =~= ts);
    assert(crate::tokenizer::spec_tokenize(s) == Ok::<Seq<TokenModel>, FormulaError>(ts));
    assert(ts[0] != TokenModel::Binary(ArithOp::Div));
    assert(ts[0] != TokenModel::Binary(ArithOp::Mult));
    assert(ts[0] != TokenModel::Binary(ArithOp::Minus));
    assert(ts[0] != TokenModel::Binary(ArithOp::Plus));
    lemma_first_op_index_is(ts, ArithOp::Div, 1);
    lemma_first_op_index_is(ts, ArithOp::Mult, 1);
    lemma_first_op_index_is(ts, ArithOp::Minus, 1);
    lemma_first_op_index_is(ts, ArithOp::Plus, 1);
    assert(spec_parse_level(ts, 1) == spec_parse_level(ts, 2));
    assert(spec_parse_level(ts, 2) == spec_parse_level(ts, 3));
    assert(spec_parse_level(ts, 3) == spec_parse_level(ts, 4));
    assert(spec_parse_level(ts, 4) == spec_parse_level(ts, 5));
    assert(spec_parse_level(ts, 5) == Ok::<ExprModel, FormulaError>(ExprModel::Constant(n)));
}

} // verus!
