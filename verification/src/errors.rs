//! The closed error taxonomy of tokenizing and parsing, and the exact text of
//! each error message. Messages are modelled as character sequences; the
//! executable builders are proved to produce exactly the modelled text.

use crate::enums::aggregate_fn_name;
use crate::enums::arith_op_char;
use crate::enums::unary_fn_name;
use crate::tokens::BmaFnToken;
use crate::tokens::TokenModel;
use crate::tokens::token_model;
use crate::tokens::token_models;
use crate::tokens::tok_size;
use crate::tokens::toks_size;
use crate::tokens::lemma_token_models;
use vstd::prelude::*;

verus! {

/// Everything that can go wrong while turning formula text into an
/// expression tree. The first three arise while tokenizing, the last three
/// while parsing.
pub enum FormulaError {
    /// A character outside the recognized alphabet.
    UnexpectedCharacter(char),
    /// An opening `(` that is never closed.
    UnmatchedParenthesis,
    /// A run of digits whose value does not fit the constant type.
    InvalidNumber(Seq<char>),
    /// No token where a formula was required.
    EmptyFormula,
    /// A token sequence that no atomic-level rule resolves.
    MalformedFormula(Seq<TokenModel>),
    /// A function applied to an argument that is not a parenthesized group.
    ArgumentNotGrouped,
}

/// The decimal digit characters of `n`, most significant first.
pub open spec fn dec_digits(n: nat) -> Seq<char>
    decreases n,
{
    if n < 10 {
        seq![digit_char(n)]
    } else {
        dec_digits(n / 10).push(digit_char(n % 10))
    }
}

/// The character for one decimal digit.
pub open spec fn digit_char(d: nat) -> char {
    if d == 0 {
        '0'
    } else if d == 1 {
        '1'
    } else if d == 2 {
        '2'
    } else if d == 3 {
        '3'
    } else if d == 4 {
        '4'
    } else if d == 5 {
        '5'
    } else if d == 6 {
        '6'
    } else if d == 7 {
        '7'
    } else if d == 8 {
        '8'
    } else {
        '9'
    }
}

/// The decimal text of a possibly negative integer.
pub open spec fn int_text(n: int) -> Seq<char> {
    if n < 0 {
        seq!['-'] + dec_digits((-n) as nat)
    } else {
        dec_digits(n as nat)
    }
}

/// The display text of one token.
pub open spec fn token_text(t: TokenModel) -> Seq<char>
    decreases t,
{
    match t {
        TokenModel::Binary(op) => seq![arith_op_char(op)],
        TokenModel::Int(n) => int_text(n),
        TokenModel::Name(s) => s,
        TokenModel::Unary(f, arg) => unary_fn_name(f) + token_text(*arg),
        TokenModel::Aggregate(f, args) => aggregate_fn_name(f) + "("@ + tokens_text(args) + ")"@,
        TokenModel::TokenList(ts) => "("@ + tokens_text(ts) + ")"@,
    }
}

/// The display text of a token sequence: the tokens' texts joined by `", "`.
pub open spec fn tokens_text(ts: Seq<TokenModel>) -> Seq<char>
    decreases ts, 1int,
{
    if ts.len() == 0 {
        Seq::empty()
    } else {
        token_text(ts[0]) + tokens_text_rest(ts.drop_first())
    }
}

/// The display text of every token after the first, each preceded by `", "`.
pub open spec fn tokens_text_rest(ts: Seq<TokenModel>) -> Seq<char>
    decreases ts, 0int,
{
    if ts.len() == 0 {
        Seq::empty()
    } else {
        ", "@ + token_text(ts[0]) + tokens_text_rest(ts.drop_first())
    }
}

/// The exact message text of each error.
pub open spec fn error_message(e: FormulaError) -> Seq<char> {
    match e {
        FormulaError::UnexpectedCharacter(c) => "Unexpected character: '"@ + seq![c] + "'"@,
        FormulaError::UnmatchedParenthesis => (
        "Expected ')' to previously encountered opening counterpart."@),
        FormulaError::InvalidNumber(digits) => "Invalid number: '"@ + digits + "'"@,
        FormulaError::EmptyFormula => "Expected formula, found nothing."@,
        FormulaError::MalformedFormula(ts) => (
        "Unexpected: ["@ + tokens_text(ts) + "]. Expecting formula."@),
        FormulaError::ArgumentNotGrouped => "Function must be applied on `TokenList` args."@,
    }
}

/// Relies on `String::push`: appends exactly the one given character.
#[verifier::external_body]
pub fn push_char(s: &mut String, c: char)
    ensures
        final (s)@ == old(s)@.push(c),
{
    s.push(c);
}

/// The character for one decimal digit, executably.
pub fn digit_char_of(d: u32) -> (c: char)
    requires
        d < 10,
    ensures
        c == digit_char(d as nat),
{
    if d == 0 {
        '0'
    } else if d == 1 {
        '1'
    } else if d == 2 {
        '2'
    } else if d == 3 {
        '3'
    } else if d == 4 {
        '4'
    } else if d == 5 {
        '5'
    } else if d == 6 {
        '6'
    } else if d == 7 {
        '7'
    } else if d == 8 {
        '8'
    } else {
        '9'
    }
}

/// Renders `n` in decimal.
pub fn u32_text(n: u32) -> (r: String)
    ensures
        r@ == dec_digits(n as nat),
    decreases n,
{
    if n < 10 {
        let mut s = String::new();
        push_char(&mut s, digit_char_of(n));
        proof {
            assert(s@ =~= seq![digit_char(n as nat)]);
        }
        s
    } else {
        let mut s = u32_text(n / 10);
        push_char(&mut s, digit_char_of(n % 10));
        s
    }
}

/// Renders a possibly negative integer in decimal.
pub fn i32_text(n: i32) -> (r: String)
    ensures
        r@ == int_text(n as int),
{
    if n >= 0 {
        u32_text(n as u32)
    } else {
        let mag: u32 = (-(n as i64)) as u32;
        let s = String::from_str("-");
        let r = s.concat(u32_text(mag).as_str());
        proof {
            reveal_strlit("-");
            assert(r@ =~= seq!['-'] + dec_digits(mag as nat));
        }
        r
    }
}

/// Renders one token for an error message.
pub fn token_text_of(t: &BmaFnToken) -> (r: String)
    ensures
        r@ == token_text(token_model(*t)),
    decreases tok_size(token_model(*t)), 0int,
{
    match t {
        BmaFnToken::Binary(op) => {
            let mut s = String::new();
            push_char(&mut s, crate::enums::arith_op_symbol(*op));
            proof {
                assert(s@ =~= seq![arith_op_char(*op)]);
            }
            s
        },
        BmaFnToken::Atomic(lit) => match lit {
            crate::tokens::Literal::Int(n) => i32_text(*n),
            crate::tokens::Literal::Str(name) => {
                let s = String::new();
                s.concat(name.as_str())
            },
        },
        BmaFnToken::Unary(f, arg) => {
            let s = crate::enums::unary_fn_str(*f);
            let inner = token_text_of(&**arg);
            String::from_str(s).concat(inner.as_str())
        },
        BmaFnToken::Aggregate(f, args) => {
            let s = crate::enums::aggregate_fn_str(*f);
            let inner = tokens_text_of(args.as_slice());
            let r = String::from_str(s).concat("(").concat(inner.as_str()).concat(")");
            proof {
                assert(r@ =~= aggregate_fn_name(*f) + "("@ + tokens_text(token_models(args@))
                    + ")"@);
            }
            r
        },
        BmaFnToken::TokenList(ts) => {
            let inner = tokens_text_of(ts.as_slice());
            let r = String::from_str("(").concat(inner.as_str()).concat(")");
            proof {
                assert(r@ =~= "("@ + tokens_text(token_models(ts@)) + ")"@);
            }
            r
        },
    }
}

/// Renders a token sequence, the tokens' texts joined by `", "`.
pub fn tokens_text_of(ts: &[BmaFnToken]) -> (r: String)
    ensures
        r@ == tokens_text(token_models(ts@)),
    decreases toks_size(token_models(ts@)), 2int,
{
    proof {
        lemma_token_models(ts@);
    }
    if ts.len() == 0 {
        String::new()
    } else {
        let head = vstd::slice::slice_index_get(ts, 0);
        proof {
            assert(token_models(ts@)[0] == token_model(ts@[0]));
        }
        let first = token_text_of(head);
        let tail = vstd::slice::slice_subrange(ts, 1, ts.len());
        proof {
            assert(tail@ =~= ts@.drop_first());
            assert(token_models(ts@.drop_first()) =~= token_models(ts@).drop_first());
        }
        let rest = tokens_text_rest_of(tail);
        first.concat(rest.as_str())
    }
}

/// Renders every token after the first, each preceded by `", "`.
pub fn tokens_text_rest_of(ts: &[BmaFnToken]) -> (r: String)
    ensures
        r@ == tokens_text_rest(token_models(ts@)),
    decreases toks_size(token_models(ts@)), 1int,
{
    proof {
        lemma_token_models(ts@);
    }
    if ts.len() == 0 {
        String::new()
    } else {
        let head = vstd::slice::slice_index_get(ts, 0);
        proof {
            assert(token_models(ts@)[0] == token_model(ts@[0]));
        }
        let first = token_text_of(head);
        let tail = vstd::slice::slice_subrange(ts, 1, ts.len());
        proof {
            assert(tail@ =~= ts@.drop_first());
            assert(token_models(ts@.drop_first()) =~= token_models(ts@).drop_first());
        }
        let rest = tokens_text_rest_of(tail);
        let r = String::from_str(", ").concat(first.as_str()).concat(rest.as_str());
        proof {
            assert(r@ =~= ", "@ + token_text(token_models(ts@)[0]) + tokens_text_rest(
                token_models(ts@).drop_first(),
            ));
        }
        r
    }
}

/// Builds the message of an unexpected-character error.
pub fn msg_unexpected_character(c: char) -> (r: String)
    ensures
        r@ == error_message(FormulaError::UnexpectedCharacter(c)),
{
    let mut s = String::from_str("Unexpected character: '");
    push_char(&mut s, c);
    let r = s.concat("'");
    proof {
        assert(r@ =~= "Unexpected character: '"@ + seq![c] + "'"@);
    }
    r
}

/// Builds the message of an unmatched-parenthesis error.
pub fn msg_unmatched_parenthesis() -> (r: String)
    ensures
        r@ == error_message(FormulaError::UnmatchedParenthesis),
{
    String::from_str("Expected ')' to previously encountered opening counterpart.")
}

/// Builds the message of an invalid-number error.
pub fn msg_invalid_number(digits: &String) -> (r: String)
    ensures
        r@ == error_message(FormulaError::InvalidNumber(digits@)),
{
    let r = String::from_str("Invalid number: '").concat(digits.as_str()).concat("'");
    proof {
        assert(r@ =~= "Invalid number: '"@ + digits@ + "'"@);
    }
    r
}

/// Builds the message of an empty-formula error.
pub fn msg_empty_formula() -> (r: String)
    ensures
        r@ == error_message(FormulaError::EmptyFormula),
{
    String::from_str("Expected formula, found nothing.")
}

/// Builds the message of a malformed-formula error.
pub fn msg_malformed_formula(ts: &[BmaFnToken]) -> (r: String)
    ensures
        r@ == error_message(FormulaError::MalformedFormula(token_models(ts@))),
{
    let inner = tokens_text_of(ts);
    let r = String::from_str("Unexpected: [").concat(inner.as_str()).concat(
        "]. Expecting formula.",
    );
    proof {
        assert(r@ =~= "Unexpected: ["@ + tokens_text(token_models(ts@)) + "]. Expecting formula."@);
    }
    r
}

/// Builds the message of an argument-not-grouped error.
pub fn msg_argument_not_grouped() -> (r: String)
    ensures
        r@ == error_message(FormulaError::ArgumentNotGrouped),
{
    String::from_str("Function must be applied on `TokenList` args.")
}

} // verus!
