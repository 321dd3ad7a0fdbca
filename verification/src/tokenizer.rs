//! The tokenizer: scans formula text into a token tree, resolving
//! parenthesis grouping and function-call argument lists into nested groups
//! as it goes. The scan is modelled by `spec_scan`; the executable scanner
//! is proved to return exactly what the model says.
//!
//! Points the grammar leaves open are settled here, and the model states
//! each settlement exactly:
//! - identifiers are ASCII letters, digits and underscores;
//! - a digit run whose value exceeds the constant type is rejected with an
//!   `Invalid number` error rather than read truncated;
//! - a `)` or `,` met outside the place that expects it is reported as an
//!   unexpected character;
//! - an identifier counts as a function call only when `(` follows it
//!   immediately, and an unknown name followed by `(` stays a plain name
//!   beside a plain group, for the parser to reject.

use crate::enums::ArithOp;
use crate::enums::spec_aggregate_fn_of_name;
use crate::enums::spec_unary_fn_of_name;
use crate::enums::unary_fn_of_name;
use crate::enums::aggregate_fn_of_name;
use crate::errors::FormulaError;
use crate::errors::error_message;
use crate::errors::msg_invalid_number;
use crate::errors::msg_unexpected_character;
use crate::errors::msg_unmatched_parenthesis;
use crate::errors::push_char;
use crate::tokens::BmaFnToken;
use crate::tokens::Literal;
use crate::tokens::TokenModel;
use crate::tokens::lemma_token_models_push;
use crate::tokens::token_model;
use crate::tokens::token_models;
use vstd::prelude::*;

verus! {

/// Where a scan stands: at the top level of the formula, inside a plain
/// parenthesized group, or inside one argument of an aggregation call.
#[derive(Clone, Copy, Debug, PartialEq, Eq, Structural)]
pub enum Mode {
    Top,
    Paren,
    Args,
}

/// Whitespace skipped between tokens.
pub open spec fn is_space_char(c: char) -> bool {
    c == ' ' || c == '\t' || c == '\n' || c == '\r'
}

/// A decimal digit.
pub open spec fn is_digit_char(c: char) -> bool {
    48 <= c as u32 <= 57
}

/// A character that may stand in an identifier: an ASCII letter, a digit, or
/// an underscore.
pub open spec fn is_name_char(c: char) -> bool {
    (97 <= c as u32 <= 122) || (65 <= c as u32 <= 90) || is_digit_char(c) || c == '_'
}

/// The operator read from a single symbol, if it is one.
pub open spec fn spec_arith_op_of(c: char) -> Option<ArithOp> {
    if c == '+' {
        Some(ArithOp::Plus)
    } else if c == '-' {
        Some(ArithOp::Minus)
    } else if c == '*' {
        Some(ArithOp::Mult)
    } else if c == '/' {
        Some(ArithOp::Div)
    } else {
        None
    }
}

/// The end of the maximal digit run that starts at `i`.
pub open spec fn digit_run_end(s: Seq<char>, i: int) -> int
    decreases s.len() - i,
        when 0 <= i <= s.len()
{
    if i < s.len() && is_digit_char(s[i]) {
        digit_run_end(s, i + 1)
    } else {
        i
    }
}

/// The end of the maximal identifier run that starts at `i`.
pub open spec fn name_run_end(s: Seq<char>, i: int) -> int
    decreases s.len() - i,
        when 0 <= i <= s.len()
{
    if i < s.len() && is_name_char(s[i]) {
        name_run_end(s, i + 1)
    } else {
        i
    }
}

/// A digit run ends within the text, after its start, and covers digits only.
pub proof fn lemma_digit_run_end(s: Seq<char>, i: int)
    requires
        0 <= i <= s.len(),
    ensures
        i <= digit_run_end(s, i) <= s.len(),
        forall|k: int| i <= k < digit_run_end(s, i) ==> is_digit_char(#[trigger] s[k]),
        digit_run_end(s, i) < s.len() ==> !is_digit_char(s[digit_run_end(s, i)]),
    decreases s.len() - i,
{
    if i < s.len() && is_digit_char(s[i]) {
        lemma_digit_run_end(s, i + 1);
    }
}

/// A name run ends within the text, after its start, and covers name
/// characters only.
pub proof fn lemma_name_run_end(s: Seq<char>, i: int)
    requires
        0 <= i <= s.len(),
    ensures
        i <= name_run_end(s, i) <= s.len(),
        forall|k: int| i <= k < name_run_end(s, i) ==> is_name_char(#[trigger] s[k]),
        name_run_end(s, i) < s.len() ==> !is_name_char(s[name_run_end(s, i)]),
    decreases s.len() - i,
{
    if i < s.len() && is_name_char(s[i]) {
        lemma_name_run_end(s, i + 1);
    }
}

/// The numeric value of one digit character.
pub open spec fn digit_val(c: char) -> int {
    c as u32 - 48
}

/// The value of a digit run read in decimal.
pub open spec fn digits_value(ds: Seq<char>) -> int
    decreases ds.len(),
{
    if ds.len() == 0 {
        0
    } else {
        digits_value(ds.drop_last()) * 10 + digit_val(ds.last())
    }
}

/// Every character of the sequence is a decimal digit.
pub open spec fn all_digits(ds: Seq<char>) -> bool {
    forall|k: int| 0 <= k < ds.len() ==> is_digit_char(#[trigger] ds[k])
}

/// The value of a digit run is never negative.
pub proof fn lemma_digits_value_nonneg(ds: Seq<char>)
    requires
        all_digits(ds),
    ensures
        digits_value(ds) >= 0,
    decreases ds.len(),
{
    if ds.len() > 0 {
        assert(all_digits(ds.drop_last()));
        lemma_digits_value_nonneg(ds.drop_last());
    }
}

/// A prefix of a digit run is worth no more than the whole run.
pub proof fn lemma_digits_value_prefix(ds: Seq<char>, m: int)
    requires
        all_digits(ds),
        0 <= m <= ds.len(),
    ensures
        digits_value(ds.take(m)) <= digits_value(ds),
    decreases ds.len(),
{
    if m == ds.len() {
        assert(ds.take(m) =~= ds);
    } else {
        assert(all_digits(ds.drop_last()));
        assert(ds.take(m) =~= ds.drop_last().take(m));
        lemma_digits_value_prefix(ds.drop_last(), m);
        lemma_digits_value_nonneg(ds.drop_last());
        lemma_digits_value_nonneg(ds.drop_last().take(m));
        assert(all_digits(ds.drop_last().take(m)));
    }
}

/// The continuation point after a nested scan of text of length `n`: a
/// nested scan always ends past its opening position and within the text,
/// and the guard keeps the recursion well-founded without appealing to that
/// fact.
pub open spec fn spec_advance(i: int, j: int, n: int) -> int {
    if i < j <= n {
        j
    } else {
        i + 1
    }
}

/// What scanning from position `i` in the given mode yields: the tokens up
/// to this level's end, the position just past what was consumed, and
/// whether an argument scan stopped at a comma rather than at `)`.
pub open spec fn spec_scan(s: Seq<char>, i: int, mode: Mode) -> Result<
    (Seq<TokenModel>, int, bool),
    FormulaError,
>
    decreases s.len() - i, 0int,
        when 0 <= i <= s.len()
        via spec_scan_decreases
{
    if i >= s.len() {
        if mode == Mode::Top {
            Ok((Seq::empty(), s.len() as int, false))
        } else {
            Err(FormulaError::UnmatchedParenthesis)
        }
    } else {
        let c = s[i];
        if is_space_char(c) {
            spec_scan(s, i + 1, mode)
        } else if c == ')' {
            if mode == Mode::Top {
                Err(FormulaError::UnexpectedCharacter(')'))
            } else {
                Ok((Seq::empty(), i + 1, false))
            }
        } else if c == ',' {
            if mode == Mode::Args {
                Ok((Seq::empty(), i + 1, true))
            } else {
                Err(FormulaError::UnexpectedCharacter(','))
            }
        } else if spec_arith_op_of(c) is Some {
            match spec_scan(s, i + 1, mode) {
                Err(e) => Err(e),
                Ok((rest, j, b)) => Ok(
                    (seq![TokenModel::Binary(spec_arith_op_of(c)->Some_0)] + rest, j, b),
                ),
            }
        } else if is_digit_char(c) {
            let j = digit_run_end(s, i);
            let v = digits_value(s.subrange(i, j));
            if v > i32::MAX as int {
                Err(FormulaError::InvalidNumber(s.subrange(i, j)))
            } else {
                match spec_scan(s, j, mode) {
                    Err(e) => Err(e),
                    Ok((rest, j2, b)) => Ok((seq![TokenModel::Int(v)] + rest, j2, b)),
                }
            }
        } else if is_name_char(c) {
            let j = name_run_end(s, i);
            let name = s.subrange(i, j);
            if j < s.len() && s[j] == '(' && spec_unary_fn_of_name(name) is Some {
                let f = spec_unary_fn_of_name(name)->Some_0;
                match spec_scan(s, j + 1, Mode::Paren) {
                    Err(e) => Err(e),
                    Ok((group, j2, _)) => match spec_scan(s, spec_advance(i, j2, s.len() as int), mode) {
                        Err(e) => Err(e),
                        Ok((rest, j3, b)) => Ok(
                            (
                                seq![
                                    TokenModel::Unary(
                                        f,
                                        Box::new(TokenModel::TokenList(group)),
                                    ),
                                ] + rest,
                                j3,
                                b,
                            ),
                        ),
                    },
                }
            } else if j < s.len() && s[j] == '(' && spec_aggregate_fn_of_name(name) is Some {
                let f = spec_aggregate_fn_of_name(name)->Some_0;
                match spec_args(s, j + 1) {
                    Err(e) => Err(e),
                    Ok((groups, j2)) => match spec_scan(s, spec_advance(i, j2, s.len() as int), mode) {
                        Err(e) => Err(e),
                        Ok((rest, j3, b)) => Ok(
                            (seq![TokenModel::Aggregate(f, groups)] + rest, j3, b),
                        ),
                    },
                }
            } else {
                match spec_scan(s, j, mode) {
                    Err(e) => Err(e),
                    Ok((rest, j2, b)) => Ok((seq![TokenModel::Name(name)] + rest, j2, b)),
                }
            }
        } else if c == '(' {
            match spec_scan(s, i + 1, Mode::Paren) {
                Err(e) => Err(e),
                Ok((group, j, _)) => match spec_scan(s, spec_advance(i, j, s.len() as int), mode) {
                    Err(e) => Err(e),
                    Ok((rest, j2, b)) => Ok(
                        (seq![TokenModel::TokenList(group)] + rest, j2, b),
                    ),
                },
            }
        } else {
            Err(FormulaError::UnexpectedCharacter(c))
        }
    }
}

/// What scanning the comma-separated argument groups of an aggregation call
/// yields, starting just inside its `(`: one `TokenList` per argument, and
/// the position just past the closing `)`.
pub open spec fn spec_args(s: Seq<char>, i: int) -> Result<(Seq<TokenModel>, int), FormulaError>
    decreases s.len() - i, 1int,
        when 0 <= i <= s.len()
        via spec_args_decreases
{
    match spec_scan(s, i, Mode::Args) {
        Err(e) => Err(e),
        Ok((ts, j, ended_at_comma)) => {
            if ended_at_comma {
                if i < s.len() {
                    match spec_args(s, spec_advance(i, j, s.len() as int)) {
                        Err(e) => Err(e),
                        Ok((groups, j2)) => Ok(
                            (seq![TokenModel::TokenList(ts)] + groups, j2),
                        ),
                    }
                } else {
                    // unreachable: a scan that starts at the end of the text
                    // stops at no comma
                    Err(FormulaError::UnmatchedParenthesis)
                }
            } else {
                Ok((seq![TokenModel::TokenList(ts)], j))
            }
        },
    }
}

#[via_fn]
proof fn spec_scan_decreases(s: Seq<char>, i: int, mode: Mode) {
    if 0 <= i < s.len() {
        let c = s[i];
        if is_digit_char(c) {
            lemma_digit_run_end(s, i);
        } else if is_name_char(c) {
            lemma_name_run_end(s, i);
        }
    }
}

#[via_fn]
proof fn spec_args_decreases(s: Seq<char>, i: int) {
}

/// What tokenizing a whole formula yields: its token sequence, or the first
/// error met.
pub open spec fn spec_tokenize(s: Seq<char>) -> Result<Seq<TokenModel>, FormulaError> {
    match spec_scan(s, 0, Mode::Top) {
        Err(e) => Err(e),
        Ok((ts, _, _)) => Ok(ts),
    }
}

/// Prepends already-scanned tokens to the outcome of scanning the rest.
pub open spec fn scan_combine(prefix: Seq<TokenModel>, r: Result<
    (Seq<TokenModel>, int, bool),
    FormulaError,
>) -> Result<(Seq<TokenModel>, int, bool), FormulaError> {
    match r {
        Ok((ts, j, b)) => Ok((prefix + ts, j, b)),
        Err(e) => Err(e),
    }
}

/// Moving a freshly scanned token into the prefix preserves the combined
/// outcome.
proof fn lemma_scan_combine_step(
    prefix: Seq<TokenModel>,
    t: TokenModel,
    r: Result<(Seq<TokenModel>, int, bool), FormulaError>,
)
    ensures
        scan_combine(prefix, scan_combine(seq![t], r)) == scan_combine(prefix.push(t), r),
{
    match r {
        Ok((ts, j, b)) => {
            assert(prefix + (seq![t] + ts) =~= prefix.push(t) + ts);
        },
        Err(_) => {},
    }
}

/// An empty prefix combines to the outcome itself.
proof fn lemma_scan_combine_empty(r: Result<(Seq<TokenModel>, int, bool), FormulaError>)
    ensures
        scan_combine(Seq::empty(), r) == r,
{
    match r {
        Ok((ts, j, b)) => {
            assert(Seq::<TokenModel>::empty() + ts =~= ts);
        },
        Err(_) => {},
    }
}

/// Prepends already-scanned argument groups to the outcome of scanning the
/// remaining ones.
pub open spec fn args_scan_combine(prefix: Seq<TokenModel>, r: Result<
    (Seq<TokenModel>, int),
    FormulaError,
>) -> Result<(Seq<TokenModel>, int), FormulaError> {
    match r {
        Ok((gs, j)) => Ok((prefix + gs, j)),
        Err(e) => Err(e),
    }
}

/// Moving a freshly scanned argument group into the prefix preserves the
/// combined outcome.
proof fn lemma_args_scan_combine_step(
    prefix: Seq<TokenModel>,
    t: TokenModel,
    r: Result<(Seq<TokenModel>, int), FormulaError>,
)
    ensures
        args_scan_combine(prefix, args_scan_combine(seq![t], r)) == args_scan_combine(
            prefix.push(t),
            r,
        ),
{
    match r {
        Ok((gs, j)) => {
            assert(prefix + (seq![t] + gs) =~= prefix.push(t) + gs);
        },
        Err(_) => {},
    }
}

/// Whitespace, executably.
fn is_space(c: char) -> (b: bool)
    ensures
        b == is_space_char(c),
{
    c == ' ' || c == '\t' || c == '\n' || c == '\r'
}

/// A decimal digit, executably.
fn is_digit(c: char) -> (b: bool)
    ensures
        b == is_digit_char(c),
{
    let u = c as u32;
    48 <= u && u <= 57
}

/// An identifier character, executably.
fn is_name(c: char) -> (b: bool)
    ensures
        b == is_name_char(c),
{
    let u = c as u32;
    (97 <= u && u <= 122) || (65 <= u && u <= 90) || (48 <= u && u <= 57) || c == '_'
}

/// The operator read from a single symbol, executably.
fn arith_op_of(c: char) -> (r: Option<ArithOp>)
    ensures
        r == spec_arith_op_of(c),
{
    if c == '+' {
        Some(ArithOp::Plus)
    } else if c == '-' {
        Some(ArithOp::Minus)
    } else if c == '*' {
        Some(ArithOp::Mult)
    } else if c == '/' {
        Some(ArithOp::Div)
    } else {
        None
    }
}

/// Scans from `start` in the given mode, returning the tokens up to this
/// level's end, the position just past what was consumed, and whether an
/// argument scan stopped at a comma. Returns exactly what `spec_scan` says.
fn scan(chars: &Vec<char>, start: usize, mode: Mode) -> (r: Result<
    (Vec<BmaFnToken>, usize, bool),
    String,
>)
    requires
        start <= chars@.len(),
    ensures
        match r {
            Ok(out) => {
                &&& spec_scan(chars@, start as int, mode) == Ok::<
                    (Seq<TokenModel>, int, bool),
                    FormulaError,
                >((token_models(out.0@), out.1 as int, out.2))
                &&& start <= out.1 <= chars@.len()
                &&& (mode != Mode::Top ==> out.1 > start)
            },
            Err(msg) => {
                &&& spec_scan(chars@, start as int, mode) is Err
                &&& msg@ == error_message(spec_scan(chars@, start as int, mode)->Err_0)
            },
        },
    decreases chars@.len() - start, 0int,
{
    let ghost s = chars@;
    let n = chars.len();
    let mut tokens: Vec<BmaFnToken> = Vec::new();
    let mut i: usize = start;
    proof {
        assert(token_models(tokens@) =~= Seq::<TokenModel>::empty());
        lemma_scan_combine_empty(spec_scan(s, start as int, mode));
    }
    while i < n
        invariant
            s == chars@,
            n == chars@.len(),
            start <= i <= n,
            spec_scan(s, start as int, mode) == scan_combine(
                token_models(tokens@),
                spec_scan(s, i as int, mode),
            ),
        decreases n - i,
    {
        let c = chars[i];
        if is_space(c) {
            proof {
                assert(spec_scan(s, i as int, mode) == spec_scan(s, i + 1, mode));
            }
            i = i + 1;
        } else if c == ')' {
            if mode == Mode::Top {
                proof {
                    assert(spec_scan(s, i as int, mode) == Err::<
                        (Seq<TokenModel>, int, bool),
                        FormulaError,
                    >(FormulaError::UnexpectedCharacter(')')));
                }
                return Err(msg_unexpected_character(')'));
            } else {
                proof {
                    assert(spec_scan(s, i as int, mode) == Ok::<
                        (Seq<TokenModel>, int, bool),
                        FormulaError,
                    >((Seq::empty(), i + 1, false)));
                    assert(token_models(tokens@) + Seq::<TokenModel>::empty() =~= token_models(
                        tokens@,
                    ));
                }
                return Ok((tokens, i + 1, false));
            }
        } else if c == ',' {
            if mode == Mode::Args {
                proof {
                    assert(spec_scan(s, i as int, mode) == Ok::<
                        (Seq<TokenModel>, int, bool),
                        FormulaError,
                    >((Seq::empty(), i + 1, true)));
                    assert(token_models(tokens@) + Seq::<TokenModel>::empty() =~= token_models(
                        tokens@,
                    ));
                }
                return Ok((tokens, i + 1, true));
            } else {
                proof {
                    assert(spec_scan(s, i as int, mode) == Err::<
                        (Seq<TokenModel>, int, bool),
                        FormulaError,
                    >(FormulaError::UnexpectedCharacter(',')));
                }
                return Err(msg_unexpected_character(','));
            }
        } else if let Some(op) = arith_op_of(c) {
            let ghost pre = tokens@;
            tokens.push(BmaFnToken::Binary(op));
            proof {
                lemma_token_models_push(pre, BmaFnToken::Binary(op));
                assert(spec_scan(s, i as int, mode) == scan_combine(
                    seq![TokenModel::Binary(op)],
                    spec_scan(s, i + 1, mode),
                ));
                lemma_scan_combine_step(
                    token_models(pre),
                    TokenModel::Binary(op),
                    spec_scan(s, i + 1, mode),
                );
            }
            i = i + 1;
        } else if is_digit(c) {
            // the maximal digit run is chars[i..k)
            let mut k: usize = i;
            while k < n && is_digit(chars[k])
                invariant
                    s == chars@,
                    n == chars@.len(),
                    i <= k <= n,
                    digit_run_end(s, i as int) == digit_run_end(s, k as int),
                decreases n - k,
            {
                k = k + 1;
            }
            proof {
                assert(digit_run_end(s, i as int) == k as int);
                lemma_digit_run_end(s, i as int);
            }
            let ghost run = s.subrange(i as int, k as int);
            proof {
                assert(all_digits(run));
            }
            let mut digits = String::new();
            let mut m: usize = i;
            while m < k
                invariant
                    s == chars@,
                    n == chars@.len(),
                    i <= m <= k <= n,
                    digits@ == s.subrange(i as int, m as int),
                decreases k - m,
            {
                push_char(&mut digits, chars[m]);
                proof {
                    assert(s.subrange(i as int, m + 1) =~= s.subrange(i as int, m as int).push(
                        s[m as int],
                    ));
                }
                m = m + 1;
            }
            let mut val: i32 = 0;
            let mut m2: usize = i;
            while m2 < k
                invariant
                    s == chars@,
                    n == chars@.len(),
                    i <= m2 <= k <= n,
                    run == s.subrange(i as int, k as int),
                    all_digits(run),
                    digits@ == run,
                    digit_run_end(s, i as int) == k as int,
                    forall|q: int| i <= q < k ==> is_digit_char(#[trigger] s[q]),
                    0 <= val,
                    val as int == digits_value(s.subrange(i as int, m2 as int)),
                    spec_scan(s, start as int, mode) == scan_combine(
                        token_models(tokens@),
                        spec_scan(s, i as int, mode),
                    ),
                decreases k - m2,
            {
                let d: u32 = (chars[m2] as u32) - 48;
                let wide: i64 = (val as i64) * 10 + (d as i64);
                proof {
                    assert(s.subrange(i as int, m2 + 1).drop_last() =~= s.subrange(
                        i as int,
                        m2 as int,
                    ));
                    assert(s.subrange(i as int, m2 + 1).last() == s[m2 as int]);
                    assert(digits_value(s.subrange(i as int, m2 + 1)) == wide as int);
                }
                if wide > 0x7fff_ffffi64 {
                    proof {
                        assert(run.take(m2 + 1 - i) =~= s.subrange(i as int, m2 + 1));
                        lemma_digits_value_prefix(run, m2 + 1 - i);
                        assert(digits_value(run) > i32::MAX as int);
                        assert(spec_scan(s, i as int, mode) == Err::<
                            (Seq<TokenModel>, int, bool),
                            FormulaError,
                        >(FormulaError::InvalidNumber(run)));
                    }
                    return Err(msg_invalid_number(&digits));
                }
                val = wide as i32;
                m2 = m2 + 1;
            }
            proof {
                assert(s.subrange(i as int, m2 as int) =~= run);
            }
            let ghost pre = tokens@;
            tokens.push(BmaFnToken::Atomic(Literal::Int(val)));
            proof {
                lemma_token_models_push(pre, BmaFnToken::Atomic(Literal::Int(val)));
                assert(token_model(BmaFnToken::Atomic(Literal::Int(val)))
                    == TokenModel::Int(val as int));
                assert(spec_scan(s, i as int, mode) == scan_combine(
                    seq![TokenModel::Int(digits_value(run))],
                    spec_scan(s, k as int, mode),
                ));
                lemma_scan_combine_step(
                    token_models(pre),
                    TokenModel::Int(val as int),
                    spec_scan(s, k as int, mode),
                );
            }
            i = k;
        } else if is_name(c) {
            // the maximal identifier run is chars[i..j)
            let mut j: usize = i;
            while j < n && is_name(chars[j])
                invariant
                    s == chars@,
                    n == chars@.len(),
                    i <= j <= n,
                    name_run_end(s, i as int) == name_run_end(s, j as int),
                decreases n - j,
            {
                j = j + 1;
            }
            proof {
                assert(name_run_end(s, i as int) == j as int);
                lemma_name_run_end(s, i as int);
            }
            let mut name = String::new();
            let mut m: usize = i;
            while m < j
                invariant
                    s == chars@,
                    n == chars@.len(),
                    i <= m <= j <= n,
                    name@ == s.subrange(i as int, m as int),
                decreases j - m,
            {
                push_char(&mut name, chars[m]);
                proof {
                    assert(s.subrange(i as int, m + 1) =~= s.subrange(i as int, m as int).push(
                        s[m as int],
                    ));
                }
                m = m + 1;
            }
            let ghost nm = s.subrange(i as int, j as int);
            let follows_paren = j < n && chars[j] == '(';
            let unary = if follows_paren {
                unary_fn_of_name(&name)
            } else {
                None
            };
            let aggregate = if follows_paren {
                aggregate_fn_of_name(&name)
            } else {
                None
            };
            if follows_paren && unary.is_some() {
                let f = unary.unwrap();
                match scan(chars, j + 1, Mode::Paren) {
                    Err(message) => {
                        proof {
                            assert(spec_scan(s, i as int, mode) == spec_scan(
                                s,
                                (j + 1) as int,
                                Mode::Paren,
                            ));
                        }
                        return Err(message);
                    },
                    Ok(group_out) => {
                        let ghost gview = group_out.0@;
                        let ghost gmodel = TokenModel::Unary(
                            f,
                            Box::new(TokenModel::TokenList(token_models(gview))),
                        );
                        let (group, j2, _ended) = group_out;
                        let inner_tok = BmaFnToken::TokenList(group);
                        proof {
                            assert(token_model(inner_tok) == TokenModel::TokenList(
                                token_models(gview),
                            ));
                        }
                        let tok = BmaFnToken::Unary(f, Box::new(inner_tok));
                        let ghost pre = tokens@;
                        proof {
                            assert(token_model(tok) == gmodel);
                            assert(spec_advance(i as int, j2 as int, n as int) == j2 as int);
                            assert(spec_scan(s, i as int, mode) == scan_combine(
                                seq![gmodel],
                                spec_scan(s, j2 as int, mode),
                            ));
                        }
                        tokens.push(tok);
                        proof {
                            lemma_token_models_push(pre, tok);
                            lemma_scan_combine_step(
                                token_models(pre),
                                gmodel,
                                spec_scan(s, j2 as int, mode),
                            );
                        }
                        i = j2;
                    },
                }
            } else if follows_paren && aggregate.is_some() {
                let f = aggregate.unwrap();
                match scan_args(chars, j + 1) {
                    Err(message) => {
                        proof {
                            assert(spec_scan(s, i as int, mode) == Err::<
                                (Seq<TokenModel>, int, bool),
                                FormulaError,
                            >(spec_args(s, (j + 1) as int)->Err_0));
                        }
                        return Err(message);
                    },
                    Ok(args_out) => {
                        let ghost gseq = token_models(args_out.0@);
                        let (groups, pos) = args_out;
                        let tok = BmaFnToken::Aggregate(f, groups);
                        let ghost gmodel = TokenModel::Aggregate(f, gseq);
                        let ghost pre = tokens@;
                        proof {
                            assert(token_model(tok) == gmodel);
                            assert(spec_advance(i as int, pos as int, n as int) == pos as int);
                            assert(spec_scan(s, i as int, mode) == scan_combine(
                                seq![gmodel],
                                spec_scan(s, pos as int, mode),
                            ));
                        }
                        tokens.push(tok);
                        proof {
                            lemma_token_models_push(pre, tok);
                            lemma_scan_combine_step(
                                token_models(pre),
                                gmodel,
                                spec_scan(s, pos as int, mode),
                            );
                        }
                        i = pos;
                    },
                }
            } else {
                let ghost pre = tokens@;
                let tok = BmaFnToken::Atomic(Literal::Str(name));
                proof {
                    assert(token_model(tok) == TokenModel::Name(nm));
                    assert(spec_scan(s, i as int, mode) == scan_combine(
                        seq![TokenModel::Name(nm)],
                        spec_scan(s, j as int, mode),
                    ));
                }
                tokens.push(tok);
                proof {
                    lemma_token_models_push(pre, tok);
                    lemma_scan_combine_step(
                        token_models(pre),
                        TokenModel::Name(nm),
                        spec_scan(s, j as int, mode),
                    );
                }
                i = j;
            }
        } else if c == '(' {
            match scan(chars, i + 1, Mode::Paren) {
                Err(message) => {
                    proof {
                        assert(spec_scan(s, i as int, mode) == spec_scan(
                            s,
                            i + 1,
                            Mode::Paren,
                        ));
                    }
                    return Err(message);
                },
                Ok(group_out) => {
                    let ghost gmodel = TokenModel::TokenList(token_models(group_out.0@));
                    let (group, j2, _ended) = group_out;
                    let tok = BmaFnToken::TokenList(group);
                    let ghost pre = tokens@;
                    proof {
                        assert(token_model(tok) == gmodel);
                        assert(spec_advance(i as int, j2 as int, n as int) == j2 as int);
                        assert(spec_scan(s, i as int, mode) == scan_combine(
                            seq![gmodel],
                            spec_scan(s, j2 as int, mode),
                        ));
                    }
                    tokens.push(tok);
                    proof {
                        lemma_token_models_push(pre, tok);
                        lemma_scan_combine_step(
                            token_models(pre),
                            gmodel,
                            spec_scan(s, j2 as int, mode),
                        );
                    }
                    i = j2;
                },
            }
        } else {
            proof {
                assert(spec_scan(s, i as int, mode) == Err::<
                    (Seq<TokenModel>, int, bool),
                    FormulaError,
                >(FormulaError::UnexpectedCharacter(c)));
            }
            return Err(msg_unexpected_character(c));
        }
    }
    if mode == Mode::Top {
        proof {
            assert(spec_scan(s, i as int, mode) == Ok::<
                (Seq<TokenModel>, int, bool),
                FormulaError,
            >((Seq::empty(), s.len() as int, false)));
            assert(token_models(tokens@) + Seq::<TokenModel>::empty() =~= token_models(tokens@));
        }
        Ok((tokens, i, false))
    } else {
        proof {
            assert(spec_scan(s, i as int, mode) == Err::<
                (Seq<TokenModel>, int, bool),
                FormulaError,
            >(FormulaError::UnmatchedParenthesis));
        }
        Err(msg_unmatched_parenthesis())
    }
}

/// Scans the comma-separated argument groups of an aggregation call,
/// starting just inside its `(`: one `TokenList` token per argument, and
/// the position just past the closing `)`. Returns exactly what
/// `spec_args` says.
fn scan_args(chars: &Vec<char>, start: usize) -> (r: Result<(Vec<BmaFnToken>, usize), String>)
    requires
        start <= chars@.len(),
    ensures
        match r {
            Ok(out) => {
                &&& spec_args(chars@, start as int) == Ok::<
                    (Seq<TokenModel>, int),
                    FormulaError,
                >((token_models(out.0@), out.1 as int))
                &&& start < out.1 <= chars@.len()
            },
            Err(msg) => {
                &&& spec_args(chars@, start as int) is Err
                &&& msg@ == error_message(spec_args(chars@, start as int)->Err_0)
            },
        },
    decreases chars@.len() - start, 1int,
{
    let ghost s = chars@;
    let n = chars.len();
    let mut groups: Vec<BmaFnToken> = Vec::new();
    let mut pos: usize = start;
    let mut again = true;
    proof {
        assert(token_models(groups@) =~= Seq::<TokenModel>::empty());
        match spec_args(s, start as int) {
            Ok(out) => {
                assert(Seq::<TokenModel>::empty() + out.0 =~= out.0);
            },
            Err(_) => {},
        }
    }
    while again
        invariant
            s == chars@,
            n == chars@.len(),
            start <= pos <= n,
            again ==> pos >= start,
            !again ==> pos > start,
            again ==> spec_args(s, start as int) == args_scan_combine(
                token_models(groups@),
                spec_args(s, pos as int),
            ),
            !again ==> spec_args(s, start as int) == Ok::<
                (Seq<TokenModel>, int),
                FormulaError,
            >((token_models(groups@), pos as int)),
        decreases n - pos + (if again { 1int } else { 0int }),
    {
        match scan(chars, pos, Mode::Args) {
            Err(message) => {
                proof {
                    assert(spec_args(s, pos as int) is Err);
                    assert(spec_args(s, start as int) is Err);
                }
                return Err(message);
            },
            Ok(arg_out) => {
                let ghost gmodel = TokenModel::TokenList(token_models(arg_out.0@));
                let (toks, p2, ended) = arg_out;
                let ghost pre_groups = groups@;
                let ghost old_pos = pos as int;
                proof {
                    assert(pos < n) by {
                        if pos == n {
                            assert(spec_scan(s, pos as int, Mode::Args) is Err);
                        }
                    }
                    if ended {
                        assert(spec_advance(old_pos, p2 as int, n as int) == p2 as int);
                        assert(spec_args(s, old_pos) == args_scan_combine(
                            seq![gmodel],
                            spec_args(s, p2 as int),
                        ));
                    } else {
                        assert(spec_args(s, old_pos) == Ok::<
                            (Seq<TokenModel>, int),
                            FormulaError,
                        >((seq![gmodel], p2 as int)));
                    }
                }
                groups.push(BmaFnToken::TokenList(toks));
                proof {
                    lemma_token_models_push(pre_groups, groups@.last());
                    if ended {
                        lemma_args_scan_combine_step(
                            token_models(pre_groups),
                            gmodel,
                            spec_args(s, p2 as int),
                        );
                    } else {
                        assert(token_models(pre_groups) + seq![gmodel] =~= token_models(
                            groups@,
                        ));
                    }
                }
                pos = p2;
                if !ended {
                    again = false;
                }
            },
        }
    }
    Ok((groups, pos))
}

/// The characters of the given text, in order.
fn str_to_char_vec(text: &str) -> (r: Vec<char>)
    ensures
        r@ == text@,
{
    let n = text.unicode_len();
    let mut chars: Vec<char> = Vec::new();
    let mut i: usize = 0;
    while i < n
        invariant
            n == text@.len(),
            0 <= i <= n,
            chars@ == text@.subrange(0, i as int),
        decreases n - i,
    {
        let c = text.get_char(i);
        chars.push(c);
        proof {
            assert(text@.subrange(0, i + 1) =~= text@.subrange(0, i as int).push(text@[i as int]));
        }
        i = i + 1;
    }
    proof {
        assert(text@.subrange(0, text@.len() as int) =~= text@);
    }
    chars
}

/// Tokenizes a whole update-function formula: returns its token sequence,
/// or the first error met, with that error's exact message.
pub fn try_tokenize_bma_formula(formula: String) -> (r: Result<Vec<BmaFnToken>, String>)
    ensures
        match spec_tokenize(formula@) {
            Ok(ts) => match r {
                Ok(tokens) => token_models(tokens@) == ts,
                Err(_) => false,
            },
            Err(e) => match r {
                Ok(_) => false,
                Err(msg) => msg@ == error_message(e),
            },
        },
{
    let chars = str_to_char_vec(formula.as_str());
    match scan(&chars, 0, Mode::Top) {
        Ok(out) => Ok(out.0),
        Err(message) => Err(message),
    }
}

/// A digit run that covers the whole remaining text ends at the text's end.
pub proof fn lemma_digit_run_end_all(s: Seq<char>, i: int)
    requires
        0 <= i <= s.len(),
        forall|k: int| i <= k < s.len() ==> is_digit_char(#[trigger] s[k]),
    ensures
        digit_run_end(s, i) == s.len(),
    decreases s.len() - i,
{
    if i < s.len() {
        lemma_digit_run_end_all(s, i + 1);
    }
}

/// The decimal text of `n` holds digits only, at least one, and reads back
/// as `n`.
pub proof fn lemma_dec_digits_value(n: nat)
    ensures
        all_digits(crate::errors::dec_digits(n)),
        crate::errors::dec_digits(n).len() >= 1,
        digits_value(crate::errors::dec_digits(n)) == n,
    decreases n,
{
    let ds = crate::errors::dec_digits(n);
    assert(ds.len() >= 1);
    assert(digits_value(ds) == digits_value(ds.drop_last()) * 10 + digit_val(ds.last()));
    if n < 10 {
        assert(is_digit_char(crate::errors::digit_char(n)));
        assert(ds.drop_last() =~= Seq::<char>::empty());
        assert(digits_value(Seq::<char>::empty()) == 0);
        assert(digit_val(crate::errors::digit_char(n)) == n);
    } else {
        lemma_dec_digits_value(n / 10);
        vstd::arithmetic::div_mod::lemma_fundamental_div_mod(n as int, 10);
        assert(ds.drop_last() =~= crate::errors::dec_digits(n / 10));
        assert(ds.last() == crate::errors::digit_char(n % 10));
        assert(is_digit_char(crate::errors::digit_char(n % 10)));
        assert(digit_val(crate::errors::digit_char(n % 10)) == n % 10);
        assert forall|k: int| 0 <= k < ds.len() implies is_digit_char(#[trigger] ds[k]) by {
            if k < ds.len() - 1 {
                assert(ds[k] == crate::errors::dec_digits(n / 10)[k]);
            }
        }
    }
}

} // verus!
