//! Grammatical validation of a lexed, resolved token sequence.

use crate::error::{CalcError, ErrV};
use crate::token::{bytes_eq, clone_bytes, clone_token, is_operator, token_is_operator, TokV, Token};
use vstd::prelude::*;

verus! {

broadcast use crate::token::lemma_bytes_deep_view;

// The reserved built-in function names, as byte sequences.
pub open spec fn nm_sin() -> Seq<u8> {
    seq![115u8, 105u8, 110u8]
}

pub open spec fn nm_cos() -> Seq<u8> {
    seq![99u8, 111u8, 115u8]
}

pub open spec fn nm_tan() -> Seq<u8> {
    seq![116u8, 97u8, 110u8]
}

pub open spec fn nm_asin() -> Seq<u8> {
    seq![97u8, 115u8, 105u8, 110u8]
}

pub open spec fn nm_acos() -> Seq<u8> {
    seq![97u8, 99u8, 111u8, 115u8]
}

pub open spec fn nm_atan() -> Seq<u8> {
    seq![97u8, 116u8, 97u8, 110u8]
}

pub open spec fn nm_sqrt() -> Seq<u8> {
    seq![115u8, 113u8, 114u8, 116u8]
}

pub open spec fn nm_fact() -> Seq<u8> {
    seq![102u8, 97u8, 99u8, 116u8]
}

pub open spec fn nm_log() -> Seq<u8> {
    seq![108u8, 111u8, 103u8]
}

pub open spec fn nm_ln() -> Seq<u8> {
    seq![108u8, 110u8]
}

/// Whether `name` is one of the reserved built-in function names, which a
/// user-defined function may not shadow.
pub open spec fn is_reserved_name(name: Seq<u8>) -> bool {
    name == nm_sin() || name == nm_cos() || name == nm_tan() || name == nm_asin() || name
        == nm_acos() || name == nm_atan() || name == nm_sqrt() || name == nm_fact() || name
        == nm_log() || name == nm_ln()
}

/// The reserved names as owned byte vectors, in the order of the spec-level
/// name functions above.
fn reserved_names() -> (r: Vec<Vec<u8>>)
    ensures
        r.deep_view() =~= seq![
            nm_sin(),
            nm_cos(),
            nm_tan(),
            nm_asin(),
            nm_acos(),
            nm_atan(),
            nm_sqrt(),
            nm_fact(),
            nm_log(),
            nm_ln(),
        ],
{
    let mut r: Vec<Vec<u8>> = Vec::new();
    r.push(vec![115u8, 105u8, 110u8]);
    r.push(vec![99u8, 111u8, 115u8]);
    r.push(vec![116u8, 97u8, 110u8]);
    r.push(vec![97u8, 115u8, 105u8, 110u8]);
    r.push(vec![97u8, 99u8, 111u8, 115u8]);
    r.push(vec![97u8, 116u8, 97u8, 110u8]);
    r.push(vec![115u8, 113u8, 114u8, 116u8]);
    r.push(vec![102u8, 97u8, 99u8, 116u8]);
    r.push(vec![108u8, 111u8, 103u8]);
    r.push(vec![108u8, 110u8]);
    proof {
        assert(r.deep_view()[0] =~= nm_sin());
        assert(r.deep_view()[1] =~= nm_cos());
        assert(r.deep_view()[2] =~= nm_tan());
        assert(r.deep_view()[3] =~= nm_asin());
        assert(r.deep_view()[4] =~= nm_acos());
        assert(r.deep_view()[5] =~= nm_atan());
        assert(r.deep_view()[6] =~= nm_sqrt());
        assert(r.deep_view()[7] =~= nm_fact());
        assert(r.deep_view()[8] =~= nm_log());
        assert(r.deep_view()[9] =~= nm_ln());
    }
    r
}

/// Exec counterpart of [`is_reserved_name`].
pub fn is_reserved(name: &Vec<u8>) -> (r: bool)
    ensures
        r == is_reserved_name(name@),
{
    let table = reserved_names();
    let mut i: usize = 0;
    let mut found: bool = false;
    while i < table.len()
        invariant
            i <= table@.len(),
            table.deep_view() =~= seq![
                nm_sin(),
                nm_cos(),
                nm_tan(),
                nm_asin(),
                nm_acos(),
                nm_atan(),
                nm_sqrt(),
                nm_fact(),
                nm_log(),
                nm_ln(),
            ],
            found == exists|j: int| 0 <= j < i && name@ == table.deep_view()[j],
        decreases table@.len() - i,
    {
        if bytes_eq(name, &table[i]) {
            proof {
                assert(name@ == table.deep_view()[i as int]);
            }
            found = true;
        }
        i = i + 1;
    }
    proof {
        assert(table.deep_view().len() == 10);
        if found {
            let j = choose|j: int| 0 <= j < 10 && name@ == table.deep_view()[j];
            assert(is_reserved_name(name@));
        }
    }
    found
}

/// How many assignment tokens the sequence holds.
pub open spec fn count_assign(s: Seq<TokV>) -> int
    decreases s.len(),
{
    if s.len() == 0 {
        0
    } else {
        count_assign(s.drop_last()) + if s.last() is Assignment {
            1int
        } else {
            0int
        }
    }
}

/// A token that may not open an expression.
pub open spec fn bad_first(t: TokV) -> bool {
    t is Comma || t is RightBracket || is_operator(t)
}

/// A token that may not close an expression.
pub open spec fn bad_last(t: TokV) -> bool {
    t is Comma || t is LeftBracket || t is FunctionName || is_operator(t)
}

/// The adjacency table: whether `next` may follow `cur`. A comma opens a new
/// argument expression and so allows the same followers as a left bracket.
pub open spec fn spec_is_next_valid(cur: TokV, next: TokV) -> bool {
    if cur is Number || cur is Variable {
        !(next is Number || next is Variable || next is FunctionName || next is LeftBracket)
    } else if is_operator(cur) {
        !(is_operator(next) || next is RightBracket)
    } else if cur is LeftBracket {
        !is_operator(next)
    } else if cur is RightBracket {
        !(next is Number || next is Variable || next is FunctionName || next is LeftBracket)
    } else if cur is FunctionName {
        next is LeftBracket
    } else if cur is Comma {
        !is_operator(next)
    } else {
        false
    }
}

/// Exec counterpart of [`spec_is_next_valid`].
fn is_next_token_valid(current: &Token, next: &Token) -> (r: bool)
    ensures
        r == spec_is_next_valid(current.deep_view(), next.deep_view()),
{
    let cur_value = match current {
        Token::Number(_) | Token::Variable(_) => true,
        _ => false,
    };
    let next_value_like = match next {
        Token::Number(_) | Token::Variable(_) | Token::FunctionName(_) | Token::LeftBracket => true,
        _ => false,
    };
    if cur_value {
        !next_value_like
    } else if token_is_operator(current) {
        !(token_is_operator(next) || matches!(next, Token::RightBracket))
    } else if matches!(current, Token::LeftBracket) {
        !token_is_operator(next)
    } else if matches!(current, Token::RightBracket) {
        !next_value_like
    } else if matches!(current, Token::FunctionName(_)) {
        matches!(next, Token::LeftBracket)
    } else if matches!(current, Token::Comma) {
        !token_is_operator(next)
    } else {
        false
    }
}

/// The running bracket balance of the whole sequence.
pub open spec fn bracket_balance(s: Seq<TokV>) -> int
    decreases s.len(),
{
    if s.len() == 0 {
        0
    } else {
        bracket_balance(s.drop_last()) + if s.last() is LeftBracket {
            1int
        } else if s.last() is RightBracket {
            -1int
        } else {
            0int
        }
    }
}

/// Whether every comma from position `i` on lies inside a function call's
/// bracket span, tracked by a nesting counter scoped to function-call
/// brackets.
pub open spec fn comma_scope_ok(s: Seq<TokV>, i: int, in_func: bool, depth: int) -> bool
    decreases s.len() - i,
{
    if i < 0 || i >= s.len() {
        true
    } else {
        match s[i] {
            TokV::FunctionName(_) => comma_scope_ok(s, i + 1, true, depth),
            TokV::LeftBracket => {
                if in_func {
                    comma_scope_ok(s, i + 1, true, depth + 1)
                } else {
                    comma_scope_ok(s, i + 1, false, depth)
                }
            },
            TokV::RightBracket => {
                if in_func {
                    if depth - 1 == 0 {
                        comma_scope_ok(s, i + 1, false, depth - 1)
                    } else {
                        comma_scope_ok(s, i + 1, true, depth - 1)
                    }
                } else {
                    comma_scope_ok(s, i + 1, false, depth)
                }
            },
            TokV::Comma => in_func && comma_scope_ok(s, i + 1, in_func, depth),
            _ => comma_scope_ok(s, i + 1, in_func, depth),
        }
    }
}

/// The first structural error of the sequence, or `None` when it is fit
/// for dispatch and evaluation. The checks run in a fixed order: non-empty input, at most one assignment, a legal first and
/// last token, legal adjacency of every pair, balanced brackets, and commas
/// only inside function-call brackets.
pub open spec fn spec_validate(s: Seq<TokV>) -> Option<ErrV> {
    if s.len() == 0 {
        Some(ErrV::NoInput)
    } else if count_assign(s) > 1 {
        Some(ErrV::TooManyAssignmentOps)
    } else if bad_first(s[0]) {
        Some(ErrV::InvalidFirstToken(s[0]))
    } else if bad_last(s[s.len() - 1]) {
        Some(ErrV::InvalidLastToken(s[s.len() - 1]))
    } else if exists|i: int|
        0 <= i < s.len() - 1 && !spec_is_next_valid(#[trigger] s[i], s[i + 1]) {
        Some(ErrV::InvalidTokenSeq)
    } else if bracket_balance(s) != 0 {
        Some(ErrV::ImbalancedBrackets)
    } else if !comma_scope_ok(s, 0, false, 0) {
        Some(ErrV::MisplacedComma)
    } else {
        None
    }
}

/// Checks a token sequence for grammatical well-formedness; must pass before
/// any evaluation or state mutation is attempted.
pub fn validate_token_list(tokens: &Vec<Token>) -> (r: Result<(), CalcError>)
    ensures
        match r {
            Ok(_) => spec_validate(tokens.deep_view()) is None,
            Err(e) => spec_validate(tokens.deep_view()) == Some(e.deep_view()),
        },
{
    let ghost s = tokens.deep_view();
    let n: usize = tokens.len();

    // non-empty input
    if n == 0 {
        return Err(CalcError::NoInput);
    }

    // at most one assignment token
    let mut equal_count: usize = 0;
    let mut i: usize = 0;
    while i < n
        invariant
            i <= n == s.len(),
            tokens.deep_view() == s,
            equal_count == count_assign(s.subrange(0, i as int)),
            equal_count <= i,
        decreases n - i,
    {
        proof {
            assert(s.subrange(0, i + 1).drop_last() =~= s.subrange(0, i as int));
            assert(s.subrange(0, i + 1).last() == s[i as int]);
        }
        if matches!(&tokens[i], Token::Assignment) {
            equal_count = equal_count + 1;
        }
        i = i + 1;
    }
    proof {
        assert(s.subrange(0, n as int) =~= s);
    }
    if equal_count > 1 {
        return Err(CalcError::TooManyAssignmentOps);
    }

    // a legal first and last token
    let first_bad = matches!(&tokens[0], Token::Comma | Token::RightBracket) || token_is_operator(
        &tokens[0],
    );
    if first_bad {
        return Err(CalcError::InvalidFirstToken(clone_token(&tokens[0])));
    }
    let last_bad = matches!(
        &tokens[n - 1],
        Token::Comma | Token::LeftBracket | Token::FunctionName(_),
    ) || token_is_operator(&tokens[n - 1]);
    if last_bad {
        return Err(CalcError::InvalidLastToken(clone_token(&tokens[n - 1])));
    }

    // legal adjacency of every pair
    let mut i: usize = 0;
    while i < n - 1
        invariant
            1 <= n,
            i <= n - 1,
            n == s.len(),
            tokens.deep_view() == s,
            count_assign(s) <= 1,
            !bad_first(s[0]),
            !bad_last(s[s.len() - 1]),
            forall|j: int| 0 <= j < i ==> spec_is_next_valid(#[trigger] s[j], s[j + 1]),
        decreases n - i,
    {
        if !is_next_token_valid(&tokens[i], &tokens[i + 1]) {
            proof {
                assert(!spec_is_next_valid(s[i as int], s[i as int + 1]));
            }
            return Err(CalcError::InvalidTokenSeq);
        }
        i = i + 1;
    }

    // balanced brackets overall
    let mut bracket_depth: i128 = 0;
    let mut i: usize = 0;
    while i < n
        invariant
            1 <= n,
            i <= n == s.len(),
            tokens.deep_view() == s,
            count_assign(s) <= 1,
            !bad_first(s[0]),
            !bad_last(s[s.len() - 1]),
            forall|j: int| 0 <= j < s.len() - 1 ==> spec_is_next_valid(#[trigger] s[j], s[j + 1]),
            bracket_depth == bracket_balance(s.subrange(0, i as int)),
            -(i as int) <= bracket_depth <= i as int,
        decreases n - i,
    {
        proof {
            assert(s.subrange(0, i + 1).drop_last() =~= s.subrange(0, i as int));
            assert(s.subrange(0, i + 1).last() == s[i as int]);
        }
        match &tokens[i] {
            Token::LeftBracket => {
                bracket_depth = bracket_depth + 1;
            },
            Token::RightBracket => {
                bracket_depth = bracket_depth - 1;
            },
            _ => {},
        }
        i = i + 1;
    }
    proof {
        assert(s.subrange(0, n as int) =~= s);
    }
    if bracket_depth != 0 {
        return Err(CalcError::ImbalancedBrackets);
    }

    // commas only inside function-call brackets
    let mut in_function_brackets: bool = false;
    let mut depth: i128 = 0;
    let mut i: usize = 0;
    while i < n
        invariant
            1 <= n,
            i <= n == s.len(),
            tokens.deep_view() == s,
            count_assign(s) <= 1,
            !bad_first(s[0]),
            !bad_last(s[s.len() - 1]),
            forall|j: int| 0 <= j < s.len() - 1 ==> spec_is_next_valid(#[trigger] s[j], s[j + 1]),
            bracket_balance(s) == 0,
            -(i as int) <= depth <= i as int,
            comma_scope_ok(s, 0, false, 0) == comma_scope_ok(
                s,
                i as int,
                in_function_brackets,
                depth as int,
            ),
        decreases n - i,
    {
        let ghost old_inf = in_function_brackets;
        let ghost old_depth = depth as int;
        match &tokens[i] {
            Token::FunctionName(_) => {
                in_function_brackets = true;
            },
            Token::LeftBracket => {
                if in_function_brackets {
                    depth = depth + 1;
                }
            },
            Token::RightBracket => {
                if in_function_brackets {
                    depth = depth - 1;
                    if depth == 0 {
                        in_function_brackets = false;
                    }
                }
            },
            Token::Comma => {
                if !in_function_brackets {
                    proof {
                        assert(!comma_scope_ok(s, i as int, old_inf, old_depth));
                    }
                    return Err(CalcError::MisplacedComma);
                }
            },
            _ => {},
        }
        proof {
            assert(comma_scope_ok(s, i as int, old_inf, old_depth) == comma_scope_ok(
                s,
                i + 1,
                in_function_brackets,
                depth as int,
            ));
        }
        i = i + 1;
    }

    Ok(())
}

/// The alternation check for a function header's parameter list: between
/// the brackets, bare variables and commas in strict alternation, starting
/// and ending with a variable (or nothing at all).
pub open spec fn alt_args_ok(s: Seq<TokV>, i: int, prev_was_arg: bool) -> Option<ErrV>
    decreases s.len() - i,
{
    if i < 0 || i >= s.len() - 1 {
        None
    } else if prev_was_arg {
        if s[i] is Comma {
            alt_args_ok(s, i + 1, false)
        } else {
            Some(ErrV::FuncExpectedComma)
        }
    } else {
        if s[i] is Variable {
            alt_args_ok(s, i + 1, true)
        } else {
            Some(ErrV::FuncExpectedArg)
        }
    }
}

/// Whether a multi-token assignment left side is a well-formed function
/// header: a non-reserved function name, an opening bracket, a
/// comma-separated list of bare variables, a closing bracket at the end.
pub open spec fn spec_valid_lhs(s: Seq<TokV>) -> Option<ErrV>
    recommends
        s.len() >= 2,
{
    if !(s[0] is FunctionName) {
        Some(ErrV::FuncNoName)
    } else if is_reserved_name(s[0]->FunctionName_0) {
        Some(ErrV::FuncHardcodedReassignAttempt(s[0]->FunctionName_0))
    } else if !(s[1] is LeftBracket) {
        Some(ErrV::FuncArgsNotInBrackets)
    } else if !(s[s.len() - 1] is RightBracket) {
        Some(ErrV::FuncArgsNotInBrackets)
    } else {
        alt_args_ok(s, 2, false)
    }
}

/// Checks a multi-token assignment left side as a function header.
pub fn is_valid_lhs_function(tokens: &Vec<Token>) -> (r: Result<(), CalcError>)
    requires
        tokens.deep_view().len() >= 2,
    ensures
        match r {
            Ok(_) => spec_valid_lhs(tokens.deep_view()) is None,
            Err(e) => spec_valid_lhs(tokens.deep_view()) == Some(e.deep_view()),
        },
{
    let ghost s = tokens.deep_view();
    let n: usize = tokens.len();

    // first token: a function name that is not reserved
    match &tokens[0] {
        Token::FunctionName(name) => {
            if is_reserved(name) {
                return Err(CalcError::FuncHardcodedReassignAttempt(clone_bytes(name)));
            }
        },
        _ => {
            return Err(CalcError::FuncNoName);
        },
    }

    // parameters must sit inside brackets
    if !matches!(&tokens[1], Token::LeftBracket) {
        return Err(CalcError::FuncArgsNotInBrackets);
    }
    if !matches!(&tokens[n - 1], Token::RightBracket) {
        return Err(CalcError::FuncArgsNotInBrackets);
    }

    // bracket contents: variables and commas in alternating order
    let mut prev_token_was_arg: bool = false;
    let mut i: usize = 2;
    while i < n - 1
        invariant
            2 <= i <= n,
            i <= n - 1 || i == 2,
            n == s.len(),
            2 <= n,
            tokens.deep_view() == s,
            s[0] is FunctionName,
            !is_reserved_name(s[0]->FunctionName_0),
            s[1] is LeftBracket,
            s[s.len() - 1] is RightBracket,
            alt_args_ok(s, 2, false) == alt_args_ok(s, i as int, prev_token_was_arg),
        decreases n - i,
    {
        if prev_token_was_arg {
            match &tokens[i] {
                Token::Comma => {
                    prev_token_was_arg = false;
                },
                _ => {
                    return Err(CalcError::FuncExpectedComma);
                },
            }
        } else {
            match &tokens[i] {
                Token::Variable(_) => {
                    prev_token_was_arg = true;
                },
                _ => {
                    return Err(CalcError::FuncExpectedArg);
                },
            }
        }
        i = i + 1;
    }
    proof {
        assert(alt_args_ok(s, i as int, prev_token_was_arg) is None);
    }
    Ok(())
}

} // verus!
