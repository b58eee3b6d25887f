//! Tokens, the lexer, and the identifier-resolution pre-pass.

use crate::error::{result_dv, CalcError, ErrV};
use vstd::prelude::*;
use vstd::slice::slice_subrange;

verus! {

// ASCII codes of the bytes the lexer distinguishes.
pub const B_LT: u8 = 60; // <
pub const B_GT: u8 = 62; // >
pub const B_CARET: u8 = 94; // ^
pub const B_PLUS: u8 = 43; // +
pub const B_MINUS: u8 = 45; // -
pub const B_SLASH: u8 = 47; // /
pub const B_STAR: u8 = 42; // *
pub const B_PERCENT: u8 = 37; // %
pub const B_AMP: u8 = 38; // &
pub const B_PIPE: u8 = 124; // |
pub const B_LPAREN: u8 = 40; // (
pub const B_RPAREN: u8 = 41; // )
pub const B_COMMA: u8 = 44; // ,
pub const B_EQ: u8 = 61; // =
pub const B_DOT: u8 = 46; // .
pub const B_UNDERSCORE: u8 = 95; // _
pub const B_0: u8 = 48; // 0
pub const B_9: u8 = 57; // 9
pub const B_UPPER_A: u8 = 65; // A
pub const B_UPPER_Z: u8 = 90; // Z
pub const B_LOWER_A: u8 = 97; // a
pub const B_LOWER_Z: u8 = 122; // z

/// An opaque numeric value carried by a [`Token::Number`].
///
/// The evaluator never looks inside a number: a value is a decimal literal
/// still in its source form, an IEEE-754 bit pattern (as stored in the
/// variable table), or a reference to the step of an arithmetic plan that
/// computes it.
#[derive(Debug)]
pub enum Num {
    /// A decimal literal: a run of digit/point bytes, and its folded sign.
    Lit { digits: Vec<u8>, neg: bool },
    /// A 64-bit IEEE-754 bit pattern.
    Bits(u64),
    /// The value produced by the plan step with this index.
    Ref(usize),
}

/// Spec-level counterpart of [`Num`].
pub enum NumV {
    Lit { digits: Seq<u8>, neg: bool },
    Bits(u64),
    Ref(int),
}

/// The smallest classified unit of input.
#[derive(Debug)]
pub enum Token {
    Addition,       // +
    Subtraction,    // -
    Division,       // /
    Multiplication, // *
    Modulation,     // %
    Exponentation,  // ^

    BitwiseLeftShift,  // <<
    BitwiseRightShift, // >>
    BitwiseAnd,        // &
    BitwiseOr,         // |
    BitwiseXor,        // ^^

    LeftBracket,  // (
    RightBracket, // )

    Comma, // ,

    Assignment, // =

    /// A lexed name not yet classified as variable or function-call head.
    UnresolvedString(Vec<u8>),
    /// A resolved variable reference.
    Variable(Vec<u8>),
    /// A resolved function-call head.
    FunctionName(Vec<u8>),
    /// A positional parameter placeholder inside a stored function body.
    FunctionArg(usize),

    /// A numeric value.
    Number(Num),
}

/// Spec-level counterpart of [`Token`].
pub enum TokV {
    Addition,
    Subtraction,
    Division,
    Multiplication,
    Modulation,
    Exponentation,
    BitwiseLeftShift,
    BitwiseRightShift,
    BitwiseAnd,
    BitwiseOr,
    BitwiseXor,
    LeftBracket,
    RightBracket,
    Comma,
    Assignment,
    UnresolvedString(Seq<u8>),
    Variable(Seq<u8>),
    FunctionName(Seq<u8>),
    FunctionArg(int),
    Number(NumV),
}

impl DeepView for Num {
    type V = NumV;

    open spec fn deep_view(&self) -> NumV {
        match self {
            Num::Lit { digits, neg } => NumV::Lit { digits: digits.deep_view(), neg: *neg },
            Num::Bits(b) => NumV::Bits(*b),
            Num::Ref(i) => NumV::Ref(*i as int),
        }
    }
}

impl DeepView for Token {
    type V = TokV;

    open spec fn deep_view(&self) -> TokV {
        match self {
            Token::Addition => TokV::Addition,
            Token::Subtraction => TokV::Subtraction,
            Token::Division => TokV::Division,
            Token::Multiplication => TokV::Multiplication,
            Token::Modulation => TokV::Modulation,
            Token::Exponentation => TokV::Exponentation,
            Token::BitwiseLeftShift => TokV::BitwiseLeftShift,
            Token::BitwiseRightShift => TokV::BitwiseRightShift,
            Token::BitwiseAnd => TokV::BitwiseAnd,
            Token::BitwiseOr => TokV::BitwiseOr,
            Token::BitwiseXor => TokV::BitwiseXor,
            Token::LeftBracket => TokV::LeftBracket,
            Token::RightBracket => TokV::RightBracket,
            Token::Comma => TokV::Comma,
            Token::Assignment => TokV::Assignment,
            Token::UnresolvedString(name) => TokV::UnresolvedString(name.deep_view()),
            Token::Variable(name) => TokV::Variable(name.deep_view()),
            Token::FunctionName(name) => TokV::FunctionName(name.deep_view()),
            Token::FunctionArg(i) => TokV::FunctionArg(*i as int),
            Token::Number(n) => TokV::Number(n.deep_view()),
        }
    }
}

/// The deep view of a byte vector is its ordinary view.
pub broadcast proof fn lemma_bytes_deep_view(v: Vec<u8>)
    ensures
        #[trigger] v.deep_view() == v@,
{
    assert(v.deep_view() =~= v@);
}

/// True of every operator token, the assignment token included.
pub open spec fn is_operator(t: TokV) -> bool {
    match t {
        TokV::Assignment
        | TokV::Addition
        | TokV::Subtraction
        | TokV::Division
        | TokV::Multiplication
        | TokV::Modulation
        | TokV::Exponentation
        | TokV::BitwiseLeftShift
        | TokV::BitwiseRightShift
        | TokV::BitwiseAnd
        | TokV::BitwiseOr
        | TokV::BitwiseXor => true,
        _ => false,
    }
}

/// Exec counterpart of [`is_operator`].
pub fn token_is_operator(t: &Token) -> (r: bool)
    ensures
        r == is_operator(t.deep_view()),
{
    match t {
        Token::Assignment
        | Token::Addition
        | Token::Subtraction
        | Token::Division
        | Token::Multiplication
        | Token::Modulation
        | Token::Exponentation
        | Token::BitwiseLeftShift
        | Token::BitwiseRightShift
        | Token::BitwiseAnd
        | Token::BitwiseOr
        | Token::BitwiseXor => true,
        _ => false,
    }
}

/// Copies a byte vector; unlike `Vec::clone`, its contract gives the view.
pub fn clone_bytes(v: &Vec<u8>) -> (r: Vec<u8>)
    ensures
        r@ == v@,
{
    let mut r: Vec<u8> = Vec::new();
    let mut i: usize = 0;
    while i < v.len()
        invariant
            i <= v@.len(),
            r@ == v@.subrange(0, i as int),
        decreases v@.len() - i,
    {
        r.push(v[i]);
        i = i + 1;
    }
    proof {
        assert(r@ =~= v@);
    }
    r
}

/// True when the two byte strings hold the same bytes.
pub fn bytes_eq(a: &Vec<u8>, b: &Vec<u8>) -> (r: bool)
    ensures
        r == (a@ == b@),
{
    if a.len() != b.len() {
        proof {
            assert(a@.len() != b@.len());
        }
        return false;
    }
    let mut i: usize = 0;
    while i < a.len()
        invariant
            i <= a@.len(),
            a@.len() == b@.len(),
            forall|j: int| 0 <= j < i ==> a@[j] == b@[j],
        decreases a@.len() - i,
    {
        if a[i] != b[i] {
            return false;
        }
        i = i + 1;
    }
    proof {
        assert(a@ =~= b@);
    }
    true
}

/// The fixed operator/punctuation table: the token a 1- or 2-byte lexeme
/// stands for, if any.
pub open spec fn spec_match_token(key: Seq<u8>) -> Option<TokV> {
    if key == seq![B_LT, B_LT] {
        Some(TokV::BitwiseLeftShift)
    } else if key == seq![B_GT, B_GT] {
        Some(TokV::BitwiseRightShift)
    } else if key == seq![B_CARET, B_CARET] {
        Some(TokV::BitwiseXor)
    } else if key == seq![B_CARET] {
        Some(TokV::Exponentation)
    } else if key == seq![B_PLUS] {
        Some(TokV::Addition)
    } else if key == seq![B_MINUS] {
        Some(TokV::Subtraction)
    } else if key == seq![B_SLASH] {
        Some(TokV::Division)
    } else if key == seq![B_STAR] {
        Some(TokV::Multiplication)
    } else if key == seq![B_PERCENT] {
        Some(TokV::Modulation)
    } else if key == seq![B_AMP] {
        Some(TokV::BitwiseAnd)
    } else if key == seq![B_PIPE] {
        Some(TokV::BitwiseOr)
    } else if key == seq![B_LPAREN] {
        Some(TokV::LeftBracket)
    } else if key == seq![B_RPAREN] {
        Some(TokV::RightBracket)
    } else if key == seq![B_COMMA] {
        Some(TokV::Comma)
    } else if key == seq![B_EQ] {
        Some(TokV::Assignment)
    } else {
        None
    }
}

/// Looks a 1- or 2-byte lexeme up in the fixed operator/punctuation table.
pub fn match_token(key: &[u8]) -> (r: Option<Token>)
    ensures
        r.deep_view() == spec_match_token(key@),
{
    if key.len() == 2 {
        let a = key[0];
        let b = key[1];
        proof {
            assert(key@ =~= seq![key@[0], key@[1]]);
        }
        if a == B_LT && b == B_LT {
            Some(Token::BitwiseLeftShift)
        } else if a == B_GT && b == B_GT {
            Some(Token::BitwiseRightShift)
        } else if a == B_CARET && b == B_CARET {
            Some(Token::BitwiseXor)
        } else {
            proof {
                assert(forall|x: u8| seq![key@[0], key@[1]] != seq![x]) by {
                    assert(forall|x: u8| seq![x].len() == 1);
                }
            }
            None
        }
    } else if key.len() == 1 {
        let a = key[0];
        proof {
            assert(key@ =~= seq![key@[0]]);
        }
        if a == B_CARET {
            Some(Token::Exponentation)
        } else if a == B_PLUS {
            Some(Token::Addition)
        } else if a == B_MINUS {
            Some(Token::Subtraction)
        } else if a == B_SLASH {
            Some(Token::Division)
        } else if a == B_STAR {
            Some(Token::Multiplication)
        } else if a == B_PERCENT {
            Some(Token::Modulation)
        } else if a == B_AMP {
            Some(Token::BitwiseAnd)
        } else if a == B_PIPE {
            Some(Token::BitwiseOr)
        } else if a == B_LPAREN {
            Some(Token::LeftBracket)
        } else if a == B_RPAREN {
            Some(Token::RightBracket)
        } else if a == B_COMMA {
            Some(Token::Comma)
        } else if a == B_EQ {
            Some(Token::Assignment)
        } else {
            None
        }
    } else {
        proof {
            assert(forall|x: u8, y: u8| key@ != seq![x, y]) by {
                assert(forall|x: u8, y: u8| seq![x, y].len() == 2);
            }
            assert(forall|x: u8| key@ != seq![x]) by {
                assert(forall|x: u8| seq![x].len() == 1);
            }
        }
        None
    }
}

/// True of the bytes a numeric literal is made of: decimal digits and the
/// decimal point.
pub open spec fn is_number_part(b: u8) -> bool {
    (B_0 <= b && b <= B_9) || b == B_DOT
}

/// True of the bytes an identifier is made of: ASCII letters and underscore.
pub open spec fn is_string_part(b: u8) -> bool {
    (B_UPPER_A <= b && b <= B_UPPER_Z) || (B_LOWER_A <= b && b <= B_LOWER_Z)
        || b == B_UNDERSCORE
}

/// The two character classes whose maximal runs form multi-byte tokens.
#[derive(Clone, Copy, Debug)]
pub enum CharKind {
    NumberPart,
    StringPart,
}

/// Whether a byte belongs to a character class.
pub open spec fn in_kind(kind: CharKind, b: u8) -> bool {
    match kind {
        CharKind::NumberPart => is_number_part(b),
        CharKind::StringPart => is_string_part(b),
    }
}

/// Exec counterpart of [`in_kind`].
pub fn byte_in_kind(kind: CharKind, b: u8) -> (r: bool)
    ensures
        r == in_kind(kind, b),
{
    match kind {
        CharKind::NumberPart => (B_0 <= b && b <= B_9) || b == B_DOT,
        CharKind::StringPart => (B_UPPER_A <= b && b <= B_UPPER_Z) || (B_LOWER_A <= b
            && b <= B_LOWER_Z) || b == B_UNDERSCORE,
    }
}

/// The first position at or after `j` that ends a run of `kind` bytes.
pub open spec fn run_end(kind: CharKind, s: Seq<u8>, j: int) -> int
    decreases s.len() - j,
{
    if j < 0 || j >= s.len() || !in_kind(kind, s[j]) {
        j
    } else {
        run_end(kind, s, j + 1)
    }
}

/// The bounds of the maximal run of `kind` bytes that starts at `start`:
/// the run covers `start` unconditionally and extends as long as the class
/// matches.
pub fn get_token_bounds(kind: CharKind, start: usize, input_chars: &[u8]) -> (r: (usize, usize))
    requires
        start < input_chars@.len(),
    ensures
        r.0 == start,
        r.1 == run_end(kind, input_chars@, start + 1),
        start < r.1 <= input_chars@.len(),
{
    let ghost s = input_chars@;
    let n: usize = input_chars.len();
    assert(start < n);
    let mut end: usize = start + 1;
    while end < input_chars.len() && byte_in_kind(kind, input_chars[end])
        invariant
            start < end <= s.len(),
            input_chars@ == s,
            run_end(kind, s, start + 1) == run_end(kind, s, end as int),
        decreases s.len() - end,
    {
        proof {
            assert(run_end(kind, s, end as int) == run_end(kind, s, end + 1));
        }
        end = end + 1;
    }
    proof {
        assert(run_end(kind, s, end as int) == end);
    }
    (start, end)
}

/// How many decimal points a byte string holds.
pub open spec fn dot_count(s: Seq<u8>) -> int
    decreases s.len(),
{
    if s.len() == 0 {
        0
    } else {
        dot_count(s.drop_last()) + if s.last() == B_DOT {
            1int
        } else {
            0int
        }
    }
}

/// True when the byte string holds at least one decimal digit.
pub open spec fn has_digit(s: Seq<u8>) -> bool {
    exists|i: int| 0 <= i < s.len() && B_0 <= #[trigger] s[i] && s[i] <= B_9
}

/// Whether a run of digit/point bytes is a well-formed decimal literal:
/// at least one digit and at most one decimal point. Exactly these runs
/// parse as (finite or rounded) decimal numbers; any other run is a lexical
/// error.
pub open spec fn lit_ok(s: Seq<u8>) -> bool {
    has_digit(s) && dot_count(s) <= 1
}

/// Exec counterpart of [`lit_ok`].
pub fn check_lit(digits: &Vec<u8>) -> (r: bool)
    ensures
        r == lit_ok(digits@),
{
    let ghost s = digits@;
    let mut dots: usize = 0;
    let mut found_digit: bool = false;
    let mut i: usize = 0;
    while i < digits.len()
        invariant
            i <= s.len(),
            digits@ == s,
            dots <= i,
            dots == dot_count(s.subrange(0, i as int)),
            found_digit == has_digit(s.subrange(0, i as int)),
        decreases s.len() - i,
    {
        proof {
            assert(s.subrange(0, i + 1).drop_last() =~= s.subrange(0, i as int));
            assert(s.subrange(0, i + 1).last() == s[i as int]);
        }
        if digits[i] == B_DOT {
            dots = dots + 1;
        } else if B_0 <= digits[i] && digits[i] <= B_9 {
            found_digit = true;
        }
        proof {
            if has_digit(s.subrange(0, i as int)) {
                let w = choose|w: int|
                    0 <= w < i && B_0 <= #[trigger] s.subrange(0, i as int)[w] && s.subrange(
                        0,
                        i as int,
                    )[w] <= B_9;
                assert(B_0 <= s.subrange(0, i + 1)[w] && s.subrange(0, i + 1)[w] <= B_9);
            }
            if B_0 <= s[i as int] && s[i as int] <= B_9 {
                assert(B_0 <= s.subrange(0, i + 1)[i as int] && s.subrange(0, i + 1)[i as int]
                    <= B_9);
            }
        }
        i = i + 1;
    }
    proof {
        assert(s.subrange(0, s.len() as int) =~= s);
    }
    found_digit && dots <= 1
}

/// The bytes of `input` from `a` (inclusive) to `b` (exclusive), as an owned
/// vector.
pub fn subvec(input: &[u8], a: usize, b: usize) -> (r: Vec<u8>)
    requires
        a <= b <= input@.len(),
    ensures
        r@ == input@.subrange(a as int, b as int),
{
    let mut r: Vec<u8> = Vec::new();
    let mut i: usize = a;
    while i < b
        invariant
            a <= i <= b <= input@.len(),
            r@ == input@.subrange(a as int, i as int),
        decreases b - i,
    {
        r.push(input[i]);
        proof {
            assert(r@ =~= input@.subrange(a as int, i + 1));
        }
        i = i + 1;
    }
    r
}

/// The smaller of two mathematical integers.
pub open spec fn min_int(a: int, b: int) -> int {
    if a <= b {
        a
    } else {
        b
    }
}

/// The raw left-to-right scan: how the byte string from position `i` on is
/// cut into tokens. A maximal digit/point run becomes a numeric literal, a
/// maximal letter/underscore run becomes an unresolved identifier, any other
/// ASCII byte is matched greedily (two bytes, then one) against the operator
/// table, and a non-ASCII byte is rejected.
pub open spec fn spec_scan(s: Seq<u8>, i: int) -> Result<Seq<TokV>, ErrV>
    decreases s.len() - i,
{
    if i < 0 || i >= s.len() {
        Ok(Seq::empty())
    } else if is_number_part(s[i]) {
        let e = run_end(CharKind::NumberPart, s, i + 1);
        if i < e <= s.len() {
            let run = s.subrange(i, e);
            if lit_ok(run) {
                match spec_scan(s, e) {
                    Ok(rest) => Ok(seq![TokV::Number(NumV::Lit { digits: run, neg: false })]
                        + rest),
                    Err(er) => Err(er),
                }
            } else {
                Err(ErrV::CannotParseNumber(run))
            }
        } else {
            Err(ErrV::InvalidTokenSeq)
        }
    } else if is_string_part(s[i]) {
        let e = run_end(CharKind::StringPart, s, i + 1);
        if i < e <= s.len() {
            let run = s.subrange(i, e);
            match spec_scan(s, e) {
                Ok(rest) => Ok(seq![TokV::UnresolvedString(run)] + rest),
                Err(er) => Err(er),
            }
        } else {
            Err(ErrV::InvalidTokenSeq)
        }
    } else if s[i] < 128 {
        if i + 2 <= s.len() && spec_match_token(s.subrange(i, i + 2)) is Some {
            match spec_scan(s, i + 2) {
                Ok(rest) => Ok(
                    seq![spec_match_token(s.subrange(i, i + 2)).unwrap()] + rest,
                ),
                Err(er) => Err(er),
            }
        } else if spec_match_token(s.subrange(i, i + 1)) is Some {
            match spec_scan(s, i + 1) {
                Ok(rest) => Ok(
                    seq![spec_match_token(s.subrange(i, i + 1)).unwrap()] + rest,
                ),
                Err(er) => Err(er),
            }
        } else {
            Err(ErrV::CannotParseOperator(s.subrange(i, min_int(i + 3, s.len() as int))))
        }
    } else {
        Err(ErrV::InvalidTokenSeq)
    }
}

/// Exec counterpart of [`spec_scan`]: cuts `input` into raw tokens from
/// position `i` on.
fn scan_tokens(input: &[u8], i: usize) -> (r: Result<Vec<Token>, CalcError>)
    requires
        i <= input@.len(),
    ensures
        result_dv(r) == spec_scan(input@, i as int),
    decreases input@.len() - i,
{
    broadcast use lemma_bytes_deep_view;

    let n: usize = input.len();
    if i >= n {
        let out: Vec<Token> = Vec::new();
        proof {
            assert(out.deep_view() =~= Seq::<TokV>::empty());
        }
        return Ok(out);
    }
    let b = input[i];
    if byte_in_kind(CharKind::NumberPart, b) {
        let bounds = get_token_bounds(CharKind::NumberPart, i, input);
        let run = subvec(input, bounds.0, bounds.1);
        if check_lit(&run) {
            match scan_tokens(input, bounds.1) {
                Ok(mut rest) => {
                    let ghost rest_dv = rest.deep_view();
                    let mut out: Vec<Token> = Vec::new();
                    out.push(Token::Number(Num::Lit { digits: run, neg: false }));
                    out.append(&mut rest);
                    proof {
                        assert(out.deep_view() =~= seq![
                            TokV::Number(
                                NumV::Lit {
                                    digits: input@.subrange(i as int, bounds.1 as int),
                                    neg: false,
                                },
                            ),
                        ] + rest_dv);
                    }
                    Ok(out)
                },
                Err(e) => Err(e),
            }
        } else {
            Err(CalcError::CannotParseNumber(run))
        }
    } else if byte_in_kind(CharKind::StringPart, b) {
        let bounds = get_token_bounds(CharKind::StringPart, i, input);
        let run = subvec(input, bounds.0, bounds.1);
        match scan_tokens(input, bounds.1) {
            Ok(mut rest) => {
                let ghost rest_dv = rest.deep_view();
                let mut out: Vec<Token> = Vec::new();
                out.push(Token::UnresolvedString(run));
                out.append(&mut rest);
                proof {
                    assert(out.deep_view() =~= seq![
                        TokV::UnresolvedString(input@.subrange(i as int, bounds.1 as int)),
                    ] + rest_dv);
                }
                Ok(out)
            },
            Err(e) => Err(e),
        }
    } else if b < 128 {
        let two = if n - i >= 2 {
            match_token(slice_subrange(input, i, i + 2))
        } else {
            None
        };
        match two {
            Some(t) => {
                match scan_tokens(input, i + 2) {
                    Ok(mut rest) => {
                        let ghost rest_dv = rest.deep_view();
                        let ghost tv = t.deep_view();
                        let mut out: Vec<Token> = Vec::new();
                        out.push(t);
                        out.append(&mut rest);
                        proof {
                            assert(out.deep_view() =~= seq![tv] + rest_dv);
                        }
                        Ok(out)
                    },
                    Err(e) => Err(e),
                }
            },
            None => {
                match match_token(slice_subrange(input, i, i + 1)) {
                    Some(t) => {
                        match scan_tokens(input, i + 1) {
                            Ok(mut rest) => {
                                let ghost rest_dv = rest.deep_view();
                                let ghost tv = t.deep_view();
                                let mut out: Vec<Token> = Vec::new();
                                out.push(t);
                                out.append(&mut rest);
                                proof {
                                    assert(out.deep_view() =~= seq![tv] + rest_dv);
                                }
                                Ok(out)
                            },
                            Err(e) => Err(e),
                        }
                    },
                    None => {
                        let stop = if n - i >= 3 {
                            i + 3
                        } else {
                            n
                        };
                        let operator_string = subvec(input, i, stop);
                        Err(CalcError::CannotParseOperator(operator_string))
                    },
                }
            },
        }
    } else {
        Err(CalcError::InvalidTokenSeq)
    }
}

/// Flips the sign of a numeric value. A plan reference cannot be negated in
/// place; the sign fold never meets one.
pub open spec fn spec_negate_num(n: NumV) -> NumV {
    match n {
        NumV::Lit { digits, neg } => NumV::Lit { digits, neg: !neg },
        NumV::Bits(b) => NumV::Bits(b ^ 0x8000_0000_0000_0000),
        NumV::Ref(i) => NumV::Ref(i),
    }
}

/// Whether [`spec_negate_num`] actually negates the value.
pub open spec fn spec_can_negate(n: NumV) -> bool {
    !(n is Ref)
}

/// The unary-sign fold, from position `i` on: a `+` or `-` that is the first
/// token or follows an operator, and immediately precedes a numeric literal,
/// is absorbed into that literal's sign and removed.
pub open spec fn spec_fold(s: Seq<TokV>, i: int) -> Seq<TokV>
    decreases 2 * s.len() - i,
{
    if i < 0 || s.len() == 0 || i >= s.len() - 1 {
        s
    } else {
        match s[i] {
            TokV::Subtraction => {
                if s[i + 1] is Number && spec_can_negate(s[i + 1]->Number_0) && (i == 0
                    || is_operator(s[i - 1])) {
                    spec_fold(
                        s.update(i + 1, TokV::Number(spec_negate_num(s[i + 1]->Number_0))).remove(
                            i,
                        ),
                        i,
                    )
                } else {
                    spec_fold(s, i + 1)
                }
            },
            TokV::Addition => {
                if s[i + 1] is Number && (i == 0 || is_operator(s[i - 1])) {
                    spec_fold(s.remove(i), i)
                } else {
                    spec_fold(s, i + 1)
                }
            },
            _ => spec_fold(s, i + 1),
        }
    }
}

/// Exec counterpart of [`spec_negate_num`].
fn negate_num(n: Num) -> (r: Num)
    ensures
        r.deep_view() == spec_negate_num(n.deep_view()),
{
    match n {
        Num::Lit { digits, neg } => Num::Lit { digits, neg: !neg },
        Num::Bits(b) => Num::Bits(b ^ 0x8000_0000_0000_0000),
        Num::Ref(i) => Num::Ref(i),
    }
}

/// Exec counterpart of [`spec_fold`]: folds unary signs into literals.
fn fold_signs(tokens: Vec<Token>, i: usize) -> (r: Vec<Token>)
    ensures
        r.deep_view() == spec_fold(tokens.deep_view(), i as int),
    decreases 2 * tokens@.len() - i,
{
    let ghost s = tokens.deep_view();
    let n: usize = tokens.len();
    if n == 0 || i >= n - 1 {
        return tokens;
    }
    let fold_kind: u8 = match &tokens[i] {
        Token::Subtraction => 1,
        Token::Addition => 2,
        _ => 0,
    };
    let prev_ok = if i == 0 {
        true
    } else {
        token_is_operator(&tokens[i - 1])
    };
    if fold_kind == 1 {
        let next_foldable = match &tokens[i + 1] {
            Token::Number(Num::Lit { .. }) => true,
            Token::Number(Num::Bits(_)) => true,
            _ => false,
        };
        if next_foldable && prev_ok {
            let mut tokens = tokens;
            let negated = match tokens.remove(i + 1) {
                Token::Number(m) => Token::Number(negate_num(m)),
                t => t,
            };
            tokens.insert(i + 1, negated);
            tokens.remove(i);
            proof {
                assert(tokens.deep_view() =~= s.update(
                    i + 1,
                    TokV::Number(spec_negate_num(s[i + 1]->Number_0)),
                ).remove(i as int));
            }
            fold_signs(tokens, i)
        } else {
            fold_signs(tokens, i + 1)
        }
    } else if fold_kind == 2 {
        let next_is_number = match &tokens[i + 1] {
            Token::Number(_) => true,
            _ => false,
        };
        if next_is_number && prev_ok {
            let mut tokens = tokens;
            tokens.remove(i);
            proof {
                assert(tokens.deep_view() =~= s.remove(i as int));
            }
            fold_signs(tokens, i)
        } else {
            fold_signs(tokens, i + 1)
        }
    } else {
        fold_signs(tokens, i + 1)
    }
}

/// Copies a numeric value; its contract gives the view.
pub fn clone_num(n: &Num) -> (r: Num)
    ensures
        r.deep_view() == n.deep_view(),
{
    broadcast use lemma_bytes_deep_view;

    match n {
        Num::Lit { digits, neg } => Num::Lit { digits: clone_bytes(digits), neg: *neg },
        Num::Bits(b) => Num::Bits(*b),
        Num::Ref(i) => Num::Ref(*i),
    }
}

/// Copies a token; its contract gives the view.
pub fn clone_token(t: &Token) -> (r: Token)
    ensures
        r.deep_view() == t.deep_view(),
{
    broadcast use lemma_bytes_deep_view;

    match t {
        Token::Addition => Token::Addition,
        Token::Subtraction => Token::Subtraction,
        Token::Division => Token::Division,
        Token::Multiplication => Token::Multiplication,
        Token::Modulation => Token::Modulation,
        Token::Exponentation => Token::Exponentation,
        Token::BitwiseLeftShift => Token::BitwiseLeftShift,
        Token::BitwiseRightShift => Token::BitwiseRightShift,
        Token::BitwiseAnd => Token::BitwiseAnd,
        Token::BitwiseOr => Token::BitwiseOr,
        Token::BitwiseXor => Token::BitwiseXor,
        Token::LeftBracket => Token::LeftBracket,
        Token::RightBracket => Token::RightBracket,
        Token::Comma => Token::Comma,
        Token::Assignment => Token::Assignment,
        Token::UnresolvedString(name) => Token::UnresolvedString(clone_bytes(name)),
        Token::Variable(name) => Token::Variable(clone_bytes(name)),
        Token::FunctionName(name) => Token::FunctionName(clone_bytes(name)),
        Token::FunctionArg(i) => Token::FunctionArg(*i),
        Token::Number(n) => Token::Number(clone_num(n)),
    }
}

/// The identifier-resolution pre-pass: an unresolved identifier immediately
/// followed by a left bracket becomes a function-call head; every other one
/// becomes a variable reference.
pub open spec fn spec_resolve_strings(s: Seq<TokV>) -> Seq<TokV> {
    Seq::new(
        s.len(),
        |i: int|
            match s[i] {
                TokV::UnresolvedString(name) => {
                    if i + 1 < s.len() && s[i + 1] is LeftBracket {
                        TokV::FunctionName(name)
                    } else {
                        TokV::Variable(name)
                    }
                },
                t => t,
            },
    )
}

/// Exec counterpart of [`spec_resolve_strings`].
fn resolve_strings(tokens: &Vec<Token>) -> (r: Vec<Token>)
    ensures
        r.deep_view() == spec_resolve_strings(tokens.deep_view()),
{
    broadcast use lemma_bytes_deep_view;

    let ghost s = tokens.deep_view();
    let n: usize = tokens.len();
    let mut out: Vec<Token> = Vec::new();
    let mut i: usize = 0;
    while i < n
        invariant
            i <= n == tokens@.len(),
            tokens.deep_view() == s,
            out.deep_view() == spec_resolve_strings(s).subrange(0, i as int),
        decreases n - i,
    {
        let next_is_left_bracket = if i + 1 < n {
            match &tokens[i + 1] {
                Token::LeftBracket => true,
                _ => false,
            }
        } else {
            false
        };
        let t = match &tokens[i] {
            Token::UnresolvedString(name) => {
                if next_is_left_bracket {
                    Token::FunctionName(clone_bytes(name))
                } else {
                    Token::Variable(clone_bytes(name))
                }
            },
            t => clone_token(t),
        };
        proof {
            assert(t.deep_view() == spec_resolve_strings(s)[i as int]);
        }
        let ghost prev_dv = out.deep_view();
        let ghost tv = t.deep_view();
        out.push(t);
        proof {
            assert(out.deep_view() =~= prev_dv.push(tv));
            assert(out.deep_view() =~= spec_resolve_strings(s).subrange(0, i + 1));
        }
        i = i + 1;
    }
    proof {
        assert(spec_resolve_strings(s).subrange(0, n as int) =~= spec_resolve_strings(s));
    }
    out
}

/// The whole lexing pipeline: raw scan, unary-sign fold, identifier
/// resolution.
pub open spec fn spec_tokenize(s: Seq<u8>) -> Result<Seq<TokV>, ErrV> {
    match spec_scan(s, 0) {
        Ok(toks) => Ok(spec_resolve_strings(spec_fold(toks, 0))),
        Err(e) => Err(e),
    }
}

/// Turns raw input bytes (whitespace already stripped) into a resolved token
/// sequence, or fails with a lexical error.
pub fn tokenize(input: &Vec<u8>) -> (r: Result<Vec<Token>, CalcError>)
    ensures
        result_dv(r) == spec_tokenize(input@),
{
    match scan_tokens(input.as_slice(), 0) {
        Ok(raw) => {
            let folded = fold_signs(raw, 0);
            Ok(resolve_strings(&folded))
        },
        Err(e) => Err(e),
    }
}

/// The shape of freshly lexed token sequences: no parameter placeholders,
/// and every number still a literal.
pub open spec fn lex_shape(s: Seq<TokV>) -> bool {
    forall|m: int|
        0 <= m < s.len() ==> match #[trigger] s[m] {
            TokV::FunctionArg(_) => false,
            TokV::Number(n) => n is Lit,
            _ => true,
        }
}

/// The raw scan only produces literals, identifiers and operators.
pub proof fn lemma_scan_shape(s: Seq<u8>, i: int)
    ensures
        spec_scan(s, i) is Ok ==> lex_shape(spec_scan(s, i)->Ok_0),
    decreases s.len() - i,
{
    if i < 0 || i >= s.len() {
        assert(spec_scan(s, i)->Ok_0 =~= Seq::<TokV>::empty());
    } else if is_number_part(s[i]) {
        let e = run_end(CharKind::NumberPart, s, i + 1);
        if i < e <= s.len() {
            lemma_scan_shape(s, e);
            if spec_scan(s, i) is Ok {
                let rest = spec_scan(s, e)->Ok_0;
                let run = s.subrange(i, e);
                let head = TokV::Number(NumV::Lit { digits: run, neg: false });
                assert forall|m: int|
                    0 <= m < spec_scan(s, i)->Ok_0.len() implies match #[trigger] spec_scan(
                    s,
                    i,
                )->Ok_0[m] {
                    TokV::FunctionArg(_) => false,
                    TokV::Number(n) => n is Lit,
                    _ => true,
                } by {
                    if m == 0 {
                        assert(spec_scan(s, i)->Ok_0[m] == head);
                    } else {
                        assert(spec_scan(s, i)->Ok_0[m] == rest[m - 1]);
                    }
                }
            }
        }
    } else if is_string_part(s[i]) {
        let e = run_end(CharKind::StringPart, s, i + 1);
        if i < e <= s.len() {
            lemma_scan_shape(s, e);
            if spec_scan(s, i) is Ok {
                let rest = spec_scan(s, e)->Ok_0;
                let head = TokV::UnresolvedString(s.subrange(i, e));
                assert forall|m: int|
                    0 <= m < spec_scan(s, i)->Ok_0.len() implies match #[trigger] spec_scan(
                    s,
                    i,
                )->Ok_0[m] {
                    TokV::FunctionArg(_) => false,
                    TokV::Number(n) => n is Lit,
                    _ => true,
                } by {
                    if m == 0 {
                        assert(spec_scan(s, i)->Ok_0[m] == head);
                    } else {
                        assert(spec_scan(s, i)->Ok_0[m] == rest[m - 1]);
                    }
                }
            }
        }
    } else if s[i] < 128 {
        if i + 2 <= s.len() && spec_match_token(s.subrange(i, i + 2)) is Some {
            lemma_scan_shape(s, i + 2);
            if spec_scan(s, i) is Ok {
                let rest = spec_scan(s, i + 2)->Ok_0;
                let head = spec_match_token(s.subrange(i, i + 2)).unwrap();
                assert(!(head is Number) && !(head is FunctionArg));
                assert forall|m: int|
                    0 <= m < spec_scan(s, i)->Ok_0.len() implies match #[trigger] spec_scan(
                    s,
                    i,
                )->Ok_0[m] {
                    TokV::FunctionArg(_) => false,
                    TokV::Number(n) => n is Lit,
                    _ => true,
                } by {
                    if m == 0 {
                        assert(spec_scan(s, i)->Ok_0[m] == head);
                    } else {
                        assert(spec_scan(s, i)->Ok_0[m] == rest[m - 1]);
                    }
                }
            }
        } else if spec_match_token(s.subrange(i, i + 1)) is Some {
            lemma_scan_shape(s, i + 1);
            if spec_scan(s, i) is Ok {
                let rest = spec_scan(s, i + 1)->Ok_0;
                let head = spec_match_token(s.subrange(i, i + 1)).unwrap();
                assert(!(head is Number) && !(head is FunctionArg));
                assert forall|m: int|
                    0 <= m < spec_scan(s, i)->Ok_0.len() implies match #[trigger] spec_scan(
                    s,
                    i,
                )->Ok_0[m] {
                    TokV::FunctionArg(_) => false,
                    TokV::Number(n) => n is Lit,
                    _ => true,
                } by {
                    if m == 0 {
                        assert(spec_scan(s, i)->Ok_0[m] == head);
                    } else {
                        assert(spec_scan(s, i)->Ok_0[m] == rest[m - 1]);
                    }
                }
            }
        }
    }
}

/// The unary-sign fold keeps the lexed shape.
pub proof fn lemma_fold_shape(s: Seq<TokV>, i: int)
    requires
        lex_shape(s),
    ensures
        lex_shape(spec_fold(s, i)),
    decreases 2 * s.len() - i,
{
    if i < 0 || s.len() == 0 || i >= s.len() - 1 {
    } else {
        match s[i] {
            TokV::Subtraction => {
                if s[i + 1] is Number && spec_can_negate(s[i + 1]->Number_0) && (i == 0
                    || is_operator(s[i - 1])) {
                    let s2 = s.update(
                        i + 1,
                        TokV::Number(spec_negate_num(s[i + 1]->Number_0)),
                    ).remove(i);
                    assert(lex_shape(s2)) by {
                        assert forall|m: int| 0 <= m < s2.len() implies match #[trigger] s2[m] {
                            TokV::FunctionArg(_) => false,
                            TokV::Number(n) => n is Lit,
                            _ => true,
                        } by {
                            let su = s.update(
                                i + 1,
                                TokV::Number(spec_negate_num(s[i + 1]->Number_0)),
                            );
                            if m < i {
                                assert(s2[m] == su[m] && su[m] == s[m]);
                            } else {
                                assert(s2[m] == su[m + 1]);
                            }
                        }
                    }
                    lemma_fold_shape(s2, i);
                } else {
                    lemma_fold_shape(s, i + 1);
                }
            },
            TokV::Addition => {
                if s[i + 1] is Number && (i == 0 || is_operator(s[i - 1])) {
                    let s2 = s.remove(i);
                    assert(lex_shape(s2)) by {
                        assert forall|m: int| 0 <= m < s2.len() implies match #[trigger] s2[m] {
                            TokV::FunctionArg(_) => false,
                            TokV::Number(n) => n is Lit,
                            _ => true,
                        } by {
                            if m < i {
                                assert(s2[m] == s[m]);
                            } else {
                                assert(s2[m] == s[m + 1]);
                            }
                        }
                    }
                    lemma_fold_shape(s2, i);
                } else {
                    lemma_fold_shape(s, i + 1);
                }
            },
            _ => {
                lemma_fold_shape(s, i + 1);
            },
        }
    }
}

/// The whole lexing pipeline produces no placeholders and only literal
/// numbers.
pub proof fn lemma_tokenize_shape(s: Seq<u8>)
    ensures
        spec_tokenize(s) is Ok ==> lex_shape(spec_tokenize(s)->Ok_0),
{
    lemma_scan_shape(s, 0);
    if spec_tokenize(s) is Ok {
        let raw = spec_scan(s, 0)->Ok_0;
        lemma_fold_shape(raw, 0);
        let folded = spec_fold(raw, 0);
        let resolved = spec_resolve_strings(folded);
        assert forall|m: int| 0 <= m < resolved.len() implies match #[trigger] resolved[m] {
            TokV::FunctionArg(_) => false,
            TokV::Number(n) => n is Lit,
            _ => true,
        } by {
            assert(match folded[m] {
                TokV::FunctionArg(_) => false,
                TokV::Number(n) => n is Lit,
                _ => true,
            });
        }
    }
}

} // verus!
