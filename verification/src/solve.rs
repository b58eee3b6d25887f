//! The evaluator: structural reduction of brackets and function calls,
//! followed by fixed-precedence operator tiers.
//!
//! A validated, variable-resolved token sequence is reduced to a single
//! numeric token. Brackets and function calls are resolved first, innermost
//! and leftmost first; then the operator tiers run in strict order -
//! exponentiation, then multiplication/division/modulo, then the bitwise
//! operators, then addition/subtraction - each tier repeatedly collapsing
//! its leftmost occurrence with numeric operands on both sides, which makes
//! every tier left-associative. Arithmetic itself is only recorded as plan
//! steps. Recursion deeper than the fixed bound of 32 fails.

use crate::engine::Calculator;
use crate::error::{CalcError, ErrV};
use crate::math_function::{func_wf, spec_subst_args, subst_args, FuncV};
use crate::plan::{num_wf, plan_wf, seq_num_wf, step_wf, BinOp, Builtin, Step, StepV};
use crate::token::{clone_bytes, clone_num, clone_token, Num, NumV, TokV, Token};
use crate::validate::{
    nm_acos, nm_asin, nm_atan, nm_cos, nm_ln, nm_log, nm_sin, nm_sqrt, nm_tan,
};
use vstd::prelude::*;

verus! {

broadcast use crate::token::lemma_bytes_deep_view;

/// The termination fuel a recursion depth leaves: every recursive call
/// raises `depth` by one, and nothing recurses once `depth` passes the
/// ceiling.
pub open spec fn rec_fuel(depth: int) -> int {
    if depth <= 40 {
        40 - depth
    } else {
        0
    }
}

/// The four fixed precedence tiers, in evaluation order.
#[derive(Clone, Copy, Debug)]
pub enum Tier {
    Pow,
    MulDivMod,
    Bitwise,
    AddSub,
}

/// The operator a token stands for within a tier, if any.
pub open spec fn tier_op(t: TokV, tier: Tier) -> Option<BinOp> {
    match tier {
        Tier::Pow => match t {
            TokV::Exponentation => Some(BinOp::Pow),
            _ => None,
        },
        Tier::MulDivMod => match t {
            TokV::Multiplication => Some(BinOp::Mul),
            TokV::Division => Some(BinOp::Div),
            TokV::Modulation => Some(BinOp::Mod),
            _ => None,
        },
        Tier::Bitwise => match t {
            TokV::BitwiseAnd => Some(BinOp::And),
            TokV::BitwiseOr => Some(BinOp::Or),
            TokV::BitwiseXor => Some(BinOp::Xor),
            TokV::BitwiseLeftShift => Some(BinOp::Shl),
            TokV::BitwiseRightShift => Some(BinOp::Shr),
            _ => None,
        },
        Tier::AddSub => match t {
            TokV::Addition => Some(BinOp::Add),
            TokV::Subtraction => Some(BinOp::Sub),
            _ => None,
        },
    }
}

/// Exec counterpart of [`tier_op`].
fn tier_op_exec(t: &Token, tier: Tier) -> (r: Option<BinOp>)
    ensures
        r == tier_op(t.deep_view(), tier),
{
    match tier {
        Tier::Pow => match t {
            Token::Exponentation => Some(BinOp::Pow),
            _ => None,
        },
        Tier::MulDivMod => match t {
            Token::Multiplication => Some(BinOp::Mul),
            Token::Division => Some(BinOp::Div),
            Token::Modulation => Some(BinOp::Mod),
            _ => None,
        },
        Tier::Bitwise => match t {
            Token::BitwiseAnd => Some(BinOp::And),
            Token::BitwiseOr => Some(BinOp::Or),
            Token::BitwiseXor => Some(BinOp::Xor),
            Token::BitwiseLeftShift => Some(BinOp::Shl),
            Token::BitwiseRightShift => Some(BinOp::Shr),
            _ => None,
        },
        Tier::AddSub => match t {
            Token::Addition => Some(BinOp::Add),
            Token::Subtraction => Some(BinOp::Sub),
            _ => None,
        },
    }
}

/// A tier operator at `j` with numeric operands immediately adjacent on
/// both sides: the only configuration a tier pass collapses.
pub open spec fn reducible_at(s: Seq<TokV>, tier: Tier, j: int) -> bool {
    1 <= j && j + 1 < s.len() && tier_op(s[j], tier) is Some && s[j - 1] is Number && s[j
        + 1] is Number
}

/// The leftmost reducible position at or after `i`.
pub open spec fn find_red(s: Seq<TokV>, tier: Tier, i: int) -> Option<int>
    decreases s.len() - i,
{
    if i < 0 || i >= s.len() {
        None
    } else if reducible_at(s, tier, i) {
        Some(i)
    } else {
        find_red(s, tier, i + 1)
    }
}

/// Exec counterpart of [`find_red`], from position 0.
fn find_red_exec(tokens: &Vec<Token>, tier: Tier) -> (r: Option<usize>)
    ensures
        match r {
            Some(j) => find_red(tokens.deep_view(), tier, 0) == Some(j as int) && reducible_at(
                tokens.deep_view(),
                tier,
                j as int,
            ),
            None => find_red(tokens.deep_view(), tier, 0) is None,
        },
{
    let ghost s = tokens.deep_view();
    let n: usize = tokens.len();
    let mut i: usize = 0;
    while i < n
        invariant
            i <= n == s.len(),
            tokens.deep_view() == s,
            find_red(s, tier, 0) == find_red(s, tier, i as int),
        decreases n - i,
    {
        let op_here = tier_op_exec(&tokens[i], tier);
        let red = if op_here.is_some() && i >= 1 && i + 1 < n {
            let left_num = matches!(&tokens[i - 1], Token::Number(_));
            let right_num = matches!(&tokens[i + 1], Token::Number(_));
            left_num && right_num
        } else {
            false
        };
        proof {
            assert(red == reducible_at(s, tier, i as int));
        }
        if red {
            proof {
                assert(find_red(s, tier, i as int) == Some(i as int));
            }
            return Some(i);
        }
        proof {
            assert(find_red(s, tier, i as int) == find_red(s, tier, i + 1));
        }
        i = i + 1;
    }
    proof {
        assert(find_red(s, tier, n as int) is None);
    }
    None
}

/// One full precedence tier: repeatedly collapse the leftmost operator of
/// the tier that has numeric operands on both sides, recording a plan step
/// each time, until none remains.
pub open spec fn spec_reduce_tier(s: Seq<TokV>, tier: Tier, plan: Seq<StepV>) -> (Seq<TokV>, Seq<
    StepV,
>)
    decreases s.len(),
{
    match find_red(s, tier, 0) {
        None => (s, plan),
        Some(j) => {
            if reducible_at(s, tier, j) {
                let op = tier_op(s[j], tier).unwrap();
                let a = s[j - 1]->Number_0;
                let b = s[j + 1]->Number_0;
                let s2 = s.subrange(0, j - 1) + seq![TokV::Number(NumV::Ref(plan.len() as int))]
                    + s.subrange(j + 2, s.len() as int);
                spec_reduce_tier(s2, tier, plan.push(StepV::Bin { op, a, b }))
            } else {
                (s, plan)
            }
        },
    }
}

/// Exec counterpart of [`spec_reduce_tier`].
fn reduce_tier(tokens: Vec<Token>, tier: Tier, plan: &mut Vec<Step>) -> (r: Vec<Token>)
    requires
        seq_num_wf(tokens.deep_view(), old(plan)@.len() as int),
        plan_wf(old(plan).deep_view()),
    ensures
        r.deep_view() == spec_reduce_tier(tokens.deep_view(), tier, old(plan).deep_view()).0,
        final(plan).deep_view() == spec_reduce_tier(tokens.deep_view(), tier, old(plan).deep_view()).1,
        r.deep_view().len() <= tokens.deep_view().len(),
        seq_num_wf(r.deep_view(), final(plan)@.len() as int),
        plan_wf(final(plan).deep_view()),
        old(plan)@.len() <= final(plan)@.len(),
    decreases tokens@.len(),
{
    let ghost s = tokens.deep_view();
    let ghost p0 = plan.deep_view();
    match find_red_exec(&tokens, tier) {
        None => tokens,
        Some(j) => {
            let n: usize = tokens.len();
            proof {
                assert(1 <= j as int && j as int + 1 < n as int);
            }
            let op = match tier_op_exec(&tokens[j], tier) {
                Some(op) => op,
                None => {
                    proof {
                        assert(false);
                    }
                    BinOp::Add
                },
            };
            let a = match &tokens[j - 1] {
                Token::Number(m) => clone_num(m),
                _ => {
                    proof {
                        assert(false);
                    }
                    Num::Bits(0)
                },
            };
            let b = match &tokens[j + 1] {
                Token::Number(m) => clone_num(m),
                _ => {
                    proof {
                        assert(false);
                    }
                    Num::Bits(0)
                },
            };
            let k = plan.len();
            let ghost step_v = StepV::Bin { op, a: a.deep_view(), b: b.deep_view() };
            plan.push(Step::Bin { op, a, b });
            proof {
                assert(plan.deep_view() =~= p0.push(step_v));
                assert(num_wf(s[j - 1]->Number_0, k as int));
                assert(num_wf(s[j + 1]->Number_0, k as int));
                assert(step_wf(step_v, k as int));
                assert forall|m: int| 0 <= m < plan.deep_view().len() implies step_wf(
                    #[trigger] plan.deep_view()[m],
                    m,
                ) by {
                    if m < k {
                        assert(plan.deep_view()[m] == p0[m]);
                    }
                }
            }
            let mut tokens = tokens;
            tokens.remove(j + 1);
            tokens.remove(j);
            tokens.remove(j - 1);
            tokens.insert(j - 1, Token::Number(Num::Ref(k)));
            let ghost s2 = s.subrange(0, j - 1) + seq![TokV::Number(NumV::Ref(k as int))]
                + s.subrange(j + 2, s.len() as int);
            proof {
                assert(tokens.deep_view() =~= s2);
                assert forall|m: int| 0 <= m < s2.len() implies match #[trigger] s2[m] {
                    TokV::Number(n) => num_wf(n, plan.deep_view().len() as int),
                    _ => true,
                } by {
                    if m < j - 1 {
                        assert(s2[m] == s[m]);
                    } else if m > j - 1 {
                        assert(s2[m] == s[m + 2]);
                    }
                }
                assert(seq_num_wf(s2, plan.deep_view().len() as int));
            }
            let r = reduce_tier(tokens, tier, plan);
            proof {
                assert(spec_reduce_tier(s, tier, p0) == spec_reduce_tier(s2, tier, p0.push(step_v)));
            }
            r
        },
    }
}

/// The leftmost structural token - a left bracket or a function-call head -
/// at or after `i`.
pub open spec fn find_structural(s: Seq<TokV>, i: int) -> Option<int>
    decreases s.len() - i,
{
    if i < 0 || i >= s.len() {
        None
    } else if s[i] is LeftBracket || s[i] is FunctionName {
        Some(i)
    } else {
        find_structural(s, i + 1)
    }
}

/// Exec counterpart of [`find_structural`], from position 0.
fn find_structural_exec(tokens: &Vec<Token>) -> (r: Option<usize>)
    ensures
        match r {
            Some(j) => find_structural(tokens.deep_view(), 0) == Some(j as int) && j
                < tokens.deep_view().len() && (tokens.deep_view()[j as int] is LeftBracket
                || tokens.deep_view()[j as int] is FunctionName),
            None => find_structural(tokens.deep_view(), 0) is None,
        },
{
    let ghost s = tokens.deep_view();
    let n: usize = tokens.len();
    let mut i: usize = 0;
    while i < n
        invariant
            i <= n == s.len(),
            tokens.deep_view() == s,
            find_structural(s, 0) == find_structural(s, i as int),
        decreases n - i,
    {
        let hit = matches!(&tokens[i], Token::LeftBracket | Token::FunctionName(_));
        if hit {
            proof {
                assert(find_structural(s, i as int) == Some(i as int));
            }
            return Some(i);
        }
        proof {
            assert(find_structural(s, i as int) == find_structural(s, i + 1));
        }
        i = i + 1;
    }
    proof {
        assert(find_structural(s, n as int) is None);
    }
    None
}

/// The position of the bracket that closes the span starting at `i` with
/// `depth` brackets already open, by depth counting.
pub open spec fn spec_find_close(s: Seq<TokV>, i: int, depth: int) -> Option<int>
    decreases s.len() - i,
{
    if i < 0 || i >= s.len() {
        None
    } else {
        let d2 = if s[i] is LeftBracket {
            depth + 1
        } else if s[i] is RightBracket {
            depth - 1
        } else {
            depth
        };
        if d2 == 0 {
            Some(i)
        } else {
            spec_find_close(s, i + 1, d2)
        }
    }
}

/// Exec counterpart of [`spec_find_close`], over the tail of a vector: the
/// matching close for one bracket already open before `start`.
fn find_close_from(tokens: &Vec<Token>, start: usize) -> (r: Option<usize>)
    requires
        start <= tokens.deep_view().len(),
    ensures
        match r {
            Some(c) => spec_find_close(tokens.deep_view(), start as int, 1) == Some(c as int)
                && start <= c < tokens.deep_view().len(),
            None => spec_find_close(tokens.deep_view(), start as int, 1) is None,
        },
{
    let ghost s = tokens.deep_view();
    let n: usize = tokens.len();
    let mut depth: i128 = 1;
    let mut i: usize = start;
    while i < n
        invariant
            start <= i <= n == s.len(),
            tokens.deep_view() == s,
            -(i as int) - 1 <= depth <= (i as int) + 1,
            spec_find_close(s, start as int, 1) == spec_find_close(s, i as int, depth as int),
        decreases n - i,
    {
        let d2: i128 = match &tokens[i] {
            Token::LeftBracket => depth + 1,
            Token::RightBracket => depth - 1,
            _ => depth,
        };
        if d2 == 0 {
            proof {
                assert(spec_find_close(s, i as int, depth as int) == Some(i as int));
            }
            return Some(i);
        }
        proof {
            assert(spec_find_close(s, i as int, depth as int) == spec_find_close(
                s,
                i + 1,
                d2 as int,
            ));
        }
        depth = d2;
        i = i + 1;
    }
    proof {
        assert(spec_find_close(s, n as int, depth as int) is None);
    }
    None
}

/// The deep view of a token slice.
pub open spec fn toks_dv(s: Seq<Token>) -> Seq<TokV> {
    Seq::new(s.len(), |i: int| s[i].deep_view())
}

/// The index of the bracket that closes the span the slice opens: the slice
/// is assumed to start just after a left bracket, and the result is the
/// index of the right bracket that brings the nesting back to zero, if any.
pub fn get_matching_bracket_index(token_list: &[Token]) -> (r: Option<usize>)
    ensures
        match r {
            Some(c) => spec_find_close(toks_dv(token_list@), 0, 1) == Some(c as int) && c
                < token_list@.len(),
            None => spec_find_close(toks_dv(token_list@), 0, 1) is None,
        },
{
    let ghost s = toks_dv(token_list@);
    let n: usize = token_list.len();
    let mut depth: i128 = 1;
    let mut i: usize = 0;
    while i < n
        invariant
            i <= n == s.len(),
            toks_dv(token_list@) == s,
            -(i as int) - 1 <= depth <= (i as int) + 1,
            spec_find_close(s, 0, 1) == spec_find_close(s, i as int, depth as int),
        decreases n - i,
    {
        let d2: i128 = match &token_list[i] {
            Token::LeftBracket => depth + 1,
            Token::RightBracket => depth - 1,
            _ => depth,
        };
        if d2 == 0 {
            proof {
                assert(spec_find_close(s, i as int, depth as int) == Some(i as int));
            }
            return Some(i);
        }
        proof {
            assert(spec_find_close(s, i as int, depth as int) == spec_find_close(
                s,
                i + 1,
                d2 as int,
            ));
        }
        depth = d2;
        i = i + 1;
    }
    proof {
        assert(spec_find_close(s, n as int, depth as int) is None);
    }
    None
}

/// The leftmost comma of the span that sits outside every bracket, the
/// boundary between two function arguments.
pub open spec fn find_top_comma(s: Seq<TokV>, i: int, depth: int) -> Option<int>
    decreases s.len() - i,
{
    if i < 0 || i >= s.len() {
        None
    } else if s[i] is Comma && depth == 0 {
        Some(i)
    } else {
        let d2 = if s[i] is LeftBracket {
            depth + 1
        } else if s[i] is RightBracket {
            depth - 1
        } else {
            depth
        };
        find_top_comma(s, i + 1, d2)
    }
}

/// Exec counterpart of [`find_top_comma`], from position 0.
fn find_top_comma_exec(tokens: &Vec<Token>) -> (r: Option<usize>)
    ensures
        match r {
            Some(c) => find_top_comma(tokens.deep_view(), 0, 0) == Some(c as int) && c
                < tokens.deep_view().len(),
            None => find_top_comma(tokens.deep_view(), 0, 0) is None,
        },
{
    let ghost s = tokens.deep_view();
    let n: usize = tokens.len();
    let mut depth: i128 = 0;
    let mut i: usize = 0;
    while i < n
        invariant
            i <= n == s.len(),
            tokens.deep_view() == s,
            -(i as int) <= depth <= i as int,
            find_top_comma(s, 0, 0) == find_top_comma(s, i as int, depth as int),
        decreases n - i,
    {
        let is_comma = matches!(&tokens[i], Token::Comma);
        if is_comma && depth == 0 {
            proof {
                assert(find_top_comma(s, i as int, depth as int) == Some(i as int));
            }
            return Some(i);
        }
        let d2: i128 = match &tokens[i] {
            Token::LeftBracket => depth + 1,
            Token::RightBracket => depth - 1,
            _ => depth,
        };
        proof {
            assert(find_top_comma(s, i as int, depth as int) == find_top_comma(s, i + 1, d2 as int));
        }
        depth = d2;
        i = i + 1;
    }
    proof {
        assert(find_top_comma(s, n as int, depth as int) is None);
    }
    None
}

/// The built-in function a name denotes, if any. `fact` is reserved but has
/// no implementation, so a call to it falls through to the user table.
pub open spec fn spec_builtin_of(name: Seq<u8>) -> Option<Builtin> {
    if name == nm_sin() {
        Some(Builtin::Sin)
    } else if name == nm_cos() {
        Some(Builtin::Cos)
    } else if name == nm_tan() {
        Some(Builtin::Tan)
    } else if name == nm_asin() {
        Some(Builtin::Asin)
    } else if name == nm_acos() {
        Some(Builtin::Acos)
    } else if name == nm_atan() {
        Some(Builtin::Atan)
    } else if name == nm_sqrt() {
        Some(Builtin::Sqrt)
    } else if name == nm_log() {
        Some(Builtin::Log)
    } else if name == nm_ln() {
        Some(Builtin::Ln)
    } else {
        None
    }
}

/// Whether a built-in scales its argument by the angle-mode factor.
pub open spec fn is_trig(f: Builtin) -> bool {
    match f {
        Builtin::Sin | Builtin::Cos | Builtin::Tan | Builtin::Asin | Builtin::Acos
            | Builtin::Atan => true,
        _ => false,
    }
}

/// Exec counterpart of [`spec_builtin_of`].
fn builtin_of_exec(name: &Vec<u8>) -> (r: Option<Builtin>)
    ensures
        r == spec_builtin_of(name@),
{
    let nm: Vec<u8> = vec![115u8, 105u8, 110u8];
    proof {
        assert(nm@ =~= nm_sin());
    }
    if crate::token::bytes_eq(name, &nm) {
        return Some(Builtin::Sin);
    }
    let nm: Vec<u8> = vec![99u8, 111u8, 115u8];
    proof {
        assert(nm@ =~= nm_cos());
    }
    if crate::token::bytes_eq(name, &nm) {
        return Some(Builtin::Cos);
    }
    let nm: Vec<u8> = vec![116u8, 97u8, 110u8];
    proof {
        assert(nm@ =~= nm_tan());
    }
    if crate::token::bytes_eq(name, &nm) {
        return Some(Builtin::Tan);
    }
    let nm: Vec<u8> = vec![97u8, 115u8, 105u8, 110u8];
    proof {
        assert(nm@ =~= nm_asin());
    }
    if crate::token::bytes_eq(name, &nm) {
        return Some(Builtin::Asin);
    }
    let nm: Vec<u8> = vec![97u8, 99u8, 111u8, 115u8];
    proof {
        assert(nm@ =~= nm_acos());
    }
    if crate::token::bytes_eq(name, &nm) {
        return Some(Builtin::Acos);
    }
    let nm: Vec<u8> = vec![97u8, 116u8, 97u8, 110u8];
    proof {
        assert(nm@ =~= nm_atan());
    }
    if crate::token::bytes_eq(name, &nm) {
        return Some(Builtin::Atan);
    }
    let nm: Vec<u8> = vec![115u8, 113u8, 114u8, 116u8];
    proof {
        assert(nm@ =~= nm_sqrt());
    }
    if crate::token::bytes_eq(name, &nm) {
        return Some(Builtin::Sqrt);
    }
    let nm: Vec<u8> = vec![108u8, 111u8, 103u8];
    proof {
        assert(nm@ =~= nm_log());
    }
    if crate::token::bytes_eq(name, &nm) {
        return Some(Builtin::Log);
    }
    let nm: Vec<u8> = vec![108u8, 110u8];
    proof {
        assert(nm@ =~= nm_ln());
    }
    if crate::token::bytes_eq(name, &nm) {
        return Some(Builtin::Ln);
    }
    None
}

/// The bytes of a token vector from `a` (inclusive) to `b` (exclusive), as
/// an owned vector of copied tokens.
pub(crate) fn subtokens(tokens: &Vec<Token>, a: usize, b: usize) -> (r: Vec<Token>)
    requires
        a <= b <= tokens.deep_view().len(),
    ensures
        r.deep_view() == tokens.deep_view().subrange(a as int, b as int),
{
    let ghost s = tokens.deep_view();
    let mut r: Vec<Token> = Vec::new();
    proof {
        assert(r.deep_view() =~= s.subrange(a as int, a as int));
    }
    let mut i: usize = a;
    while i < b
        invariant
            a <= i <= b <= s.len(),
            tokens.deep_view() == s,
            r.deep_view() == s.subrange(a as int, i as int),
        decreases b - i,
    {
        let t = clone_token(&tokens[i]);
        let ghost prev_dv = r.deep_view();
        let ghost tv = t.deep_view();
        r.push(t);
        proof {
            assert(r.deep_view() =~= prev_dv.push(tv));
            assert(r.deep_view() =~= s.subrange(a as int, i + 1));
        }
        i = i + 1;
    }
    r
}

/// The structural phase: repeatedly resolve the leftmost bracket span or
/// function call, splicing the single result in its place, until neither
/// remains.
///
/// The bounds tests on the found close bracket, the depth ceiling and the
/// spliced sequence's length guard the recursion; on every run that the
/// executable code can take they hold (a resolved span always splices to
/// something strictly shorter, and nothing recurses past the ceiling), so
/// their failure branches only make the definition total.
pub open spec fn spec_structural(funcs: Map<Seq<u8>, FuncV>, radians: bool, s: Seq<TokV>, depth: int, plan: Seq<StepV>) -> Result<
    (Seq<TokV>, Seq<StepV>),
    ErrV,
>
    decreases rec_fuel(depth), 1int, s.len(),
{
    match find_structural(s, 0) {
        None => Ok((s, plan)),
        Some(j) => {
            if !(0 <= j < s.len()) {
                Err(ErrV::ImbalancedBrackets)
            } else if s[j] is LeftBracket {
                match spec_find_close(s, j + 1, 1) {
                    None => Err(ErrV::ImbalancedBrackets),
                    Some(c) => {
                        if j < c < s.len() && depth <= 32 {
                            match spec_solve_rec(funcs, radians, s.subrange(j + 1, c), depth + 1, plan) {
                                Err(e) => Err(e),
                                Ok((ans, p2)) => {
                                    let s2 = s.subrange(0, j) + ans + s.subrange(
                                        c + 1,
                                        s.len() as int,
                                    );
                                    if s2.len() < s.len() {
                                        spec_structural(funcs, radians, s2, depth, p2)
                                    } else {
                                        Err(ErrV::FailedToSolveEquation)
                                    }
                                },
                            }
                        } else if depth > 32 {
                            Err(ErrV::TooMuchRecursion)
                        } else {
                            Err(ErrV::ImbalancedBrackets)
                        }
                    },
                }
            } else {
                let name = s[j]->FunctionName_0;
                if j + 2 > s.len() {
                    Err(ErrV::ImbalancedBrackets)
                } else {
                    match spec_find_close(s, j + 2, 1) {
                        None => Err(ErrV::ImbalancedBrackets),
                        Some(c) => {
                            if j + 2 <= c < s.len() && depth <= 32 {
                                match spec_solve_function(
                                    funcs,
                                    radians,
                                    name,
                                    s.subrange(j + 2, c),
                                    depth + 1,
                                    plan,
                                ) {
                                    Err(e) => Err(e),
                                    Ok((num, p2)) => {
                                        let s2 = s.subrange(0, j) + seq![TokV::Number(num)]
                                            + s.subrange(c + 1, s.len() as int);
                                        if s2.len() < s.len() {
                                            spec_structural(funcs, radians, s2, depth, p2)
                                        } else {
                                            Err(ErrV::FailedToSolveEquation)
                                        }
                                    },
                                }
                            } else if depth > 32 {
                                Err(ErrV::TooMuchRecursion)
                            } else {
                                Err(ErrV::ImbalancedBrackets)
                            }
                        },
                    }
                }
            }
        },
    }
}

/// One recursive solver call: the depth check, the structural phase, then
/// the four precedence tiers in order.
pub open spec fn spec_solve_rec(funcs: Map<Seq<u8>, FuncV>, radians: bool, s: Seq<TokV>, depth: int, plan: Seq<StepV>) -> Result<
    (Seq<TokV>, Seq<StepV>),
    ErrV,
>
    decreases rec_fuel(depth), 2int, s.len(),
{
    if depth > 32 {
        Err(ErrV::TooMuchRecursion)
    } else {
        match spec_structural(funcs, radians, s, depth, plan) {
            Err(e) => Err(e),
            Ok((s1, p1)) => {
                let r2 = spec_reduce_tier(s1, Tier::Pow, p1);
                let r3 = spec_reduce_tier(r2.0, Tier::MulDivMod, r2.1);
                let r4 = spec_reduce_tier(r3.0, Tier::Bitwise, r3.1);
                let r5 = spec_reduce_tier(r4.0, Tier::AddSub, r4.1);
                Ok((r5.0, r5.1))
            },
        }
    }
}

/// The solver's entry: above the depth ceiling fail, an empty sequence is
/// zero, anything else goes through one recursive call.
pub open spec fn spec_solve(funcs: Map<Seq<u8>, FuncV>, radians: bool, eq: Seq<TokV>, depth: int, plan: Seq<StepV>) -> Result<
    (Seq<TokV>, Seq<StepV>),
    ErrV,
>
    decreases rec_fuel(depth), 3int, eq.len(),
{
    if depth > 32 {
        Err(ErrV::TooMuchRecursion)
    } else if eq.len() == 0 {
        Ok((seq![TokV::Number(NumV::Bits(0))], plan))
    } else {
        spec_solve_rec(funcs, radians, eq, depth + 1, plan)
    }
}

/// The argument list of a call: the span split on top-level commas, each
/// fragment independently evaluated one level deeper; every fragment must
/// reduce to exactly one number.
pub open spec fn spec_args(funcs: Map<Seq<u8>, FuncV>, radians: bool, span: Seq<TokV>, depth: int, plan: Seq<StepV>) -> Result<
    (Seq<NumV>, Seq<StepV>),
    ErrV,
>
    decreases rec_fuel(depth), 2int, span.len(),
{
    match find_top_comma(span, 0, 0) {
        None => {
            if depth > 32 {
                Err(ErrV::TooMuchRecursion)
            } else {
                match spec_solve(funcs, radians, span, depth + 1, plan) {
                    Err(e) => Err(e),
                    Ok((res, p2)) => {
                        if res.len() == 1 && res[0] is Number {
                            Ok((seq![res[0]->Number_0], p2))
                        } else {
                            Err(ErrV::FailedToSolveEquation)
                        }
                    },
                }
            }
        },
        Some(c) => {
            if 0 <= c < span.len() && depth <= 32 {
                match spec_solve(funcs, radians, span.subrange(0, c), depth + 1, plan) {
                    Err(e) => Err(e),
                    Ok((res, p2)) => {
                        if res.len() == 1 && res[0] is Number {
                            match spec_args(funcs, radians, span.subrange(c + 1, span.len() as int), depth, p2) {
                                Err(e) => Err(e),
                                Ok((rest, p3)) => Ok((seq![res[0]->Number_0] + rest, p3)),
                            }
                        } else {
                            Err(ErrV::FailedToSolveEquation)
                        }
                    },
                }
            } else if depth > 32 {
                Err(ErrV::TooMuchRecursion)
            } else {
                Err(ErrV::FailedToSolveEquation)
            }
        },
    }
}

/// A function call: arguments evaluated (an empty span is an empty argument
/// list), then either a built-in applied as a plan step, or a stored body
/// filled in and evaluated one level deeper. The argument count must match
/// the declared one exactly; an unknown name fails.
pub open spec fn spec_solve_function(
    funcs: Map<Seq<u8>, FuncV>,
    radians: bool,
    name: Seq<u8>,
    span: Seq<TokV>,
    depth: int,
    plan: Seq<StepV>,
) -> Result<(NumV, Seq<StepV>), ErrV>
    decreases rec_fuel(depth), 3int, span.len(),
{
    let args_r = if span.len() == 0 {
        Ok((Seq::<NumV>::empty(), plan))
    } else {
        spec_args(funcs, radians, span, depth, plan)
    };
    match args_r {
        Err(e) => Err(e),
        Ok((args, p2)) => {
            match spec_builtin_of(name) {
                Some(f) => {
                    if args.len() != 1 {
                        Err(ErrV::FuncIncorrectArgCount(1))
                    } else {
                        let scale = is_trig(f) && !radians;
                        Ok(
                            (
                                NumV::Ref(p2.len() as int),
                                p2.push(StepV::Apply { f, arg: args[0], scale }),
                            ),
                        )
                    }
                },
                None => {
                    if funcs.contains_key(name) {
                        let fv = funcs[name];
                        if fv.arg_count != args.len() {
                            Err(ErrV::FuncIncorrectArgCount(fv.arg_count))
                        } else if depth > 32 {
                            Err(ErrV::TooMuchRecursion)
                        } else {
                            let body = spec_subst_args(fv.body, args);
                            match spec_solve(funcs, radians, body, depth + 1, p2) {
                                Err(e) => Err(e),
                                Ok((res, p3)) => {
                                    if res.len() == 1 && res[0] is Number {
                                        Ok((res[0]->Number_0, p3))
                                    } else {
                                        Err(ErrV::FailedToSolveEquation)
                                    }
                                },
                            }
                        }
                    } else {
                        Err(ErrV::FuncDoesNotExist(name))
                    }
                },
            }
        },
    }
}

impl Calculator {
    /// Exec counterpart of [`spec_structural`]: resolves every bracket span
    /// and function call, leftmost first.
    #[verifier::rlimit(60)]
    fn structural_pass(&self, token_list: Vec<Token>, depth: u32, plan: &mut Vec<Step>) -> (r:
        Result<Vec<Token>, CalcError>)
        requires
            self.wf(),
            depth <= 32,
            seq_num_wf(token_list.deep_view(), old(plan)@.len() as int),
            plan_wf(old(plan).deep_view()),
        ensures
            match r {
                Ok(v) => spec_structural(
                    self.ctx().funcs,
                    self.ctx().radians,
                    token_list.deep_view(),
                    depth as int,
                    old(plan).deep_view(),
                ) == Ok::<(Seq<TokV>, Seq<StepV>), ErrV>((v.deep_view(), final(plan).deep_view()))
                    && v.deep_view().len() <= token_list.deep_view().len() && seq_num_wf(
                    v.deep_view(),
                    final(plan)@.len() as int,
                ) && plan_wf(final(plan).deep_view()) && old(plan)@.len() <= final(plan)@.len(),
                Err(e) => spec_structural(
                    self.ctx().funcs,
                    self.ctx().radians,
                    token_list.deep_view(),
                    depth as int,
                    old(plan).deep_view(),
                ) == Err::<(Seq<TokV>, Seq<StepV>), ErrV>(e.deep_view()),
            },
        decreases rec_fuel(depth as int), 1int, token_list@.len(),
    {
        let ghost s = token_list.deep_view();
        let ghost p0 = plan.deep_view();
        match find_structural_exec(&token_list) {
            None => Ok(token_list),
            Some(j) => {
                let n: usize = token_list.len();
                let is_bracket = matches!(&token_list[j], Token::LeftBracket);
                if is_bracket {
                    match find_close_from(&token_list, j + 1) {
                        None => Err(CalcError::ImbalancedBrackets),
                        Some(c) => {
                            let inner = subtokens(&token_list, j + 1, c);
                            proof {
                                assert(seq_num_wf(inner.deep_view(), p0.len() as int)) by {
                                    assert(forall|m: int|
                                        0 <= m < inner.deep_view().len()
                                            ==> inner.deep_view()[m] == s[m + j + 1]);
                                }
                            }
                            match self.solve_rec(inner, depth + 1, plan) {
                                Err(e) => Err(e),
                                Ok(mut ans) => {
                                    let ghost ans_dv = ans.deep_view();
                                    let ghost p2 = plan.deep_view();
                                    let mut s2 = subtokens(&token_list, 0, j);
                                    s2.append(&mut ans);
                                    let mut suffix = subtokens(&token_list, c + 1, n);
                                    s2.append(&mut suffix);
                                    let ghost s2_dv = s.subrange(0, j as int) + ans_dv + s.subrange(
                                        c + 1,
                                        s.len() as int,
                                    );
                                    proof {
                                        assert(s2.deep_view() =~= s2_dv);
                                        assert(s2_dv.len() < s.len());
                                        assert(seq_num_wf(s2_dv, p2.len() as int)) by {
                                            assert forall|m: int|
                                                0 <= m < s2_dv.len() implies match #[trigger] s2_dv[m] {
                                                TokV::Number(nn) => num_wf(nn, p2.len() as int),
                                                _ => true,
                                            } by {
                                                if m < j {
                                                    assert(s2_dv[m] == s[m]);
                                                } else if m < j + ans_dv.len() {
                                                    assert(s2_dv[m] == ans_dv[m - j]);
                                                } else {
                                                    assert(s2_dv[m] == s[m - j - ans_dv.len() + c
                                                        + 1]);
                                                }
                                            }
                                        }
                                    }
                                    let r = self.structural_pass(s2, depth, plan);
                                    proof {
                                        assert(spec_structural(self.ctx().funcs, self.ctx().radians, s, depth as int, p0)
                                            == spec_structural(self.ctx().funcs, self.ctx().radians, s2_dv, depth as int, p2));
                                    }
                                    r
                                },
                            }
                        },
                    }
                } else {
                    let name = match &token_list[j] {
                        Token::FunctionName(nm) => clone_bytes(nm),
                        _ => {
                            proof {
                                assert(false);
                            }
                            Vec::new()
                        },
                    };
                    if n - j < 2 {
                        proof {
                            assert(j as int + 2 > s.len());
                        }
                        Err(CalcError::ImbalancedBrackets)
                    } else {
                        match find_close_from(&token_list, j + 2) {
                            None => Err(CalcError::ImbalancedBrackets),
                            Some(c) => {
                                let span = subtokens(&token_list, j + 2, c);
                                proof {
                                    assert(seq_num_wf(span.deep_view(), p0.len() as int)) by {
                                        assert(forall|m: int|
                                            0 <= m < span.deep_view().len()
                                                ==> span.deep_view()[m] == s[m + j + 2]);
                                    }
                                }
                                match self.solve_function(&name, span, depth + 1, plan) {
                                    Err(e) => Err(e),
                                    Ok(num) => {
                                        let ghost num_dv = num.deep_view();
                                        let ghost p2 = plan.deep_view();
                                        let mut s2 = subtokens(&token_list, 0, j);
                                        s2.push(Token::Number(num));
                                        let mut suffix = subtokens(&token_list, c + 1, n);
                                        s2.append(&mut suffix);
                                        let ghost s2_dv = s.subrange(0, j as int) + seq![
                                            TokV::Number(num_dv),
                                        ] + s.subrange(c + 1, s.len() as int);
                                        proof {
                                            assert(s2.deep_view() =~= s2_dv);
                                            assert(s2_dv.len() < s.len());
                                            assert(seq_num_wf(s2_dv, p2.len() as int)) by {
                                                assert forall|m: int|
                                                    0 <= m < s2_dv.len() implies match #[trigger] s2_dv[m] {
                                                    TokV::Number(nn) => num_wf(nn, p2.len() as int),
                                                    _ => true,
                                                } by {
                                                    if m < j {
                                                        assert(s2_dv[m] == s[m]);
                                                    } else if m == j {
                                                        assert(s2_dv[m] == TokV::Number(num_dv));
                                                    } else {
                                                        assert(s2_dv[m] == s[m - j - 1 + c + 1]);
                                                    }
                                                }
                                            }
                                        }
                                        let r = self.structural_pass(s2, depth, plan);
                                        proof {
                                            assert(spec_structural(self.ctx().funcs, self.ctx().radians, s, depth as int, p0)
                                                == spec_structural(
                                                self.ctx().funcs,
                                                self.ctx().radians,
                                                s2_dv,
                                                depth as int,
                                                p2,
                                            ));
                                        }
                                        r
                                    },
                                }
                            },
                        }
                    }
                }
            },
        }
    }

    /// One recursive solver call: depth check, structural phase, then the
    /// four precedence tiers.
    pub fn solve_rec(&self, token_list: Vec<Token>, depth: u32, plan: &mut Vec<Step>) -> (r: Result<
        Vec<Token>,
        CalcError,
    >)
        requires
            self.wf(),
            seq_num_wf(token_list.deep_view(), old(plan)@.len() as int),
            plan_wf(old(plan).deep_view()),
        ensures
            match r {
                Ok(v) => spec_solve_rec(
                    self.ctx().funcs,
                    self.ctx().radians,
                    token_list.deep_view(),
                    depth as int,
                    old(plan).deep_view(),
                ) == Ok::<(Seq<TokV>, Seq<StepV>), ErrV>((v.deep_view(), final(plan).deep_view()))
                    && v.deep_view().len() <= token_list.deep_view().len() && seq_num_wf(
                    v.deep_view(),
                    final(plan)@.len() as int,
                ) && plan_wf(final(plan).deep_view()) && old(plan)@.len() <= final(plan)@.len(),
                Err(e) => spec_solve_rec(
                    self.ctx().funcs,
                    self.ctx().radians,
                    token_list.deep_view(),
                    depth as int,
                    old(plan).deep_view(),
                ) == Err::<(Seq<TokV>, Seq<StepV>), ErrV>(e.deep_view()),
            },
        decreases rec_fuel(depth as int), 2int, token_list@.len(),
    {
        if depth > 32 {
            return Err(CalcError::TooMuchRecursion);
        }
        let s1 = match self.structural_pass(token_list, depth, plan) {
            Ok(v) => v,
            Err(e) => {
                return Err(e);
            },
        };
        let s2 = reduce_tier(s1, Tier::Pow, plan);
        let s3 = reduce_tier(s2, Tier::MulDivMod, plan);
        let s4 = reduce_tier(s3, Tier::Bitwise, plan);
        let s5 = reduce_tier(s4, Tier::AddSub, plan);
        Ok(s5)
    }

    /// The solver's entry: an expression above the depth ceiling fails, an
    /// empty one evaluates to zero, anything else goes through one
    /// recursive call.
    pub fn solve(&self, equation: Vec<Token>, depth: u32, plan: &mut Vec<Step>) -> (r: Result<
        Vec<Token>,
        CalcError,
    >)
        requires
            self.wf(),
            seq_num_wf(equation.deep_view(), old(plan)@.len() as int),
            plan_wf(old(plan).deep_view()),
        ensures
            match r {
                Ok(v) => spec_solve(
                    self.ctx().funcs,
                    self.ctx().radians,
                    equation.deep_view(),
                    depth as int,
                    old(plan).deep_view(),
                ) == Ok::<(Seq<TokV>, Seq<StepV>), ErrV>((v.deep_view(), final(plan).deep_view()))
                    && seq_num_wf(v.deep_view(), final(plan)@.len() as int) && plan_wf(
                    final(plan).deep_view(),
                ) && old(plan)@.len() <= final(plan)@.len(),
                Err(e) => spec_solve(
                    self.ctx().funcs,
                    self.ctx().radians,
                    equation.deep_view(),
                    depth as int,
                    old(plan).deep_view(),
                ) == Err::<(Seq<TokV>, Seq<StepV>), ErrV>(e.deep_view()),
            },
        decreases rec_fuel(depth as int), 3int, equation@.len(),
    {
        if depth > 32 {
            return Err(CalcError::TooMuchRecursion);
        }
        if equation.len() == 0 {
            let mut v: Vec<Token> = Vec::new();
            v.push(Token::Number(Num::Bits(0)));
            proof {
                assert(v.deep_view() =~= seq![TokV::Number(NumV::Bits(0))]);
            }
            return Ok(v);
        }
        self.solve_rec(equation, depth + 1, plan)
    }

    /// Exec counterpart of [`spec_args`]: evaluates a call's comma-separated
    /// argument list.
    fn solve_args(&self, span: Vec<Token>, depth: u32, plan: &mut Vec<Step>) -> (r: Result<
        Vec<Num>,
        CalcError,
    >)
        requires
            self.wf(),
            seq_num_wf(span.deep_view(), old(plan)@.len() as int),
            plan_wf(old(plan).deep_view()),
        ensures
            match r {
                Ok(v) => spec_args(
                    self.ctx().funcs,
                    self.ctx().radians,
                    span.deep_view(),
                    depth as int,
                    old(plan).deep_view(),
                ) == Ok::<(Seq<NumV>, Seq<StepV>), ErrV>((v.deep_view(), final(plan).deep_view()))
                    && (forall|m: int|
                    0 <= m < v.deep_view().len() ==> num_wf(
                        #[trigger] v.deep_view()[m],
                        final(plan)@.len() as int,
                    )) && plan_wf(final(plan).deep_view()) && old(plan)@.len()
                    <= final(plan)@.len(),
                Err(e) => spec_args(
                    self.ctx().funcs,
                    self.ctx().radians,
                    span.deep_view(),
                    depth as int,
                    old(plan).deep_view(),
                ) == Err::<(Seq<NumV>, Seq<StepV>), ErrV>(e.deep_view()),
            },
        decreases rec_fuel(depth as int), 2int, span@.len(),
    {
        let ghost s = span.deep_view();
        let ghost p0 = plan.deep_view();
        match find_top_comma_exec(&span) {
            None => {
                if depth > 32 {
                    return Err(CalcError::TooMuchRecursion);
                }
                match self.solve(span, depth + 1, plan) {
                    Err(e) => Err(e),
                    Ok(res) => {
                        if res.len() == 1 {
                            match &res[0] {
                                Token::Number(m) => {
                                    let num = clone_num(m);
                                    let mut out: Vec<Num> = Vec::new();
                                    out.push(num);
                                    proof {
                                        assert(res.deep_view()[0] == TokV::Number(
                                            out.deep_view()[0],
                                        ));
                                        assert(out.deep_view() =~= seq![
                                            res.deep_view()[0]->Number_0,
                                        ]);
                                    }
                                    Ok(out)
                                },
                                _ => Err(CalcError::FailedToSolveEquation),
                            }
                        } else {
                            Err(CalcError::FailedToSolveEquation)
                        }
                    },
                }
            },
            Some(c) => {
                if depth > 32 {
                    return Err(CalcError::TooMuchRecursion);
                }
                let n: usize = span.len();
                let front = subtokens(&span, 0, c);
                proof {
                    assert(seq_num_wf(front.deep_view(), p0.len() as int)) by {
                        assert(forall|m: int|
                            0 <= m < front.deep_view().len() ==> front.deep_view()[m] == s[m]);
                    }
                }
                match self.solve(front, depth + 1, plan) {
                    Err(e) => Err(e),
                    Ok(res) => {
                        if res.len() == 1 {
                            match &res[0] {
                                Token::Number(m) => {
                                    let num = clone_num(m);
                                    let ghost num_dv = num.deep_view();
                                    proof {
                                        assert(res.deep_view()[0] == TokV::Number(num_dv));
                                    }
                                    let rest_span = subtokens(&span, c + 1, n);
                                    proof {
                                        assert(seq_num_wf(
                                            rest_span.deep_view(),
                                            plan.deep_view().len() as int,
                                        )) by {
                                            assert(forall|m: int|
                                                0 <= m < rest_span.deep_view().len()
                                                    ==> rest_span.deep_view()[m] == s[m + c + 1]);
                                        }
                                    }
                                    match self.solve_args(rest_span, depth, plan) {
                                        Err(e) => Err(e),
                                        Ok(mut rest) => {
                                            let ghost rest_dv = rest.deep_view();
                                            let mut out: Vec<Num> = Vec::new();
                                            out.push(num);
                                            out.append(&mut rest);
                                            proof {
                                                assert(out.deep_view() =~= seq![num_dv] + rest_dv);
                                            }
                                            Ok(out)
                                        },
                                    }
                                },
                                _ => Err(CalcError::FailedToSolveEquation),
                            }
                        } else {
                            Err(CalcError::FailedToSolveEquation)
                        }
                    },
                }
            },
        }
    }

    /// Evaluates a function call: the argument span (an empty span is an
    /// empty argument list), then a built-in as a plan step or a stored
    /// body filled in and evaluated one level deeper.
    #[verifier::rlimit(60)]
    pub fn solve_function(
        &self,
        name: &Vec<u8>,
        arg_span: Vec<Token>,
        depth: u32,
        plan: &mut Vec<Step>,
    ) -> (r: Result<Num, CalcError>)
        requires
            self.wf(),
            seq_num_wf(arg_span.deep_view(), old(plan)@.len() as int),
            plan_wf(old(plan).deep_view()),
        ensures
            match r {
                Ok(num) => spec_solve_function(
                    self.ctx().funcs,
                    self.ctx().radians,
                    name@,
                    arg_span.deep_view(),
                    depth as int,
                    old(plan).deep_view(),
                ) == Ok::<(NumV, Seq<StepV>), ErrV>((num.deep_view(), final(plan).deep_view()))
                    && num_wf(num.deep_view(), final(plan)@.len() as int) && plan_wf(
                    final(plan).deep_view(),
                ) && old(plan)@.len() <= final(plan)@.len(),
                Err(e) => spec_solve_function(
                    self.ctx().funcs,
                    self.ctx().radians,
                    name@,
                    arg_span.deep_view(),
                    depth as int,
                    old(plan).deep_view(),
                ) == Err::<(NumV, Seq<StepV>), ErrV>(e.deep_view()),
            },
        decreases rec_fuel(depth as int), 3int, arg_span@.len(),
    {
        let ghost s = arg_span.deep_view();
        let ghost p0 = plan.deep_view();
        let args: Vec<Num> = if arg_span.len() == 0 {
            let v: Vec<Num> = Vec::new();
            proof {
                assert(v.deep_view() =~= Seq::<NumV>::empty());
            }
            v
        } else {
            match self.solve_args(arg_span, depth, plan) {
                Ok(v) => v,
                Err(e) => {
                    return Err(e);
                },
            }
        };
        let ghost args_dv = args.deep_view();
        let ghost p2 = plan.deep_view();
        match builtin_of_exec(name) {
            Some(f) => {
                if args.len() != 1 {
                    return Err(CalcError::FuncIncorrectArgCount(1));
                }
                let scale = match f {
                    Builtin::Sin | Builtin::Cos | Builtin::Tan | Builtin::Asin | Builtin::Acos
                        | Builtin::Atan => !self.use_radians,
                    _ => false,
                };
                proof {
                    assert(scale == (is_trig(f) && !self.ctx().radians));
                }
                let arg0 = clone_num(&args[0]);
                let k = plan.len();
                let ghost step_v = StepV::Apply { f, arg: arg0.deep_view(), scale };
                plan.push(Step::Apply { f, arg: arg0, scale });
                proof {
                    assert(plan.deep_view() =~= p2.push(step_v));
                    assert(num_wf(args_dv[0], k as int));
                    assert(step_wf(step_v, k as int));
                    assert forall|m: int| 0 <= m < plan.deep_view().len() implies step_wf(
                        #[trigger] plan.deep_view()[m],
                        m,
                    ) by {
                        if m < k {
                            assert(plan.deep_view()[m] == p2[m]);
                        }
                    }
                }
                Ok(Num::Ref(k))
            },
            None => {
                match self.functions.get(name) {
                    None => Err(CalcError::FuncDoesNotExist(clone_bytes(name))),
                    Some(function) => {
                        proof {
                            assert(func_wf(self.functions@[name@]));
                        }
                        let declared: usize = function.arg_count;
                        if declared != args.len() {
                            return Err(CalcError::FuncIncorrectArgCount(declared));
                        }
                        if depth > 32 {
                            return Err(CalcError::TooMuchRecursion);
                        }
                        let body = subst_args(&function.func, &args);
                        let ghost body_dv = body.deep_view();
                        proof {
                            assert(seq_num_wf(body_dv, p2.len() as int)) by {
                                let fv = self.functions@[name@];
                                assert forall|m: int|
                                    0 <= m < body_dv.len() implies match #[trigger] body_dv[m] {
                                    TokV::Number(nn) => num_wf(nn, p2.len() as int),
                                    _ => true,
                                } by {
                                    assert(body_dv[m] == spec_subst_args(fv.body, args_dv)[m]);
                                    assert(match fv.body[m] {
                                        TokV::FunctionArg(jj) => 0 <= jj < fv.arg_count,
                                        TokV::Number(nn) => !(nn is Ref),
                                        _ => true,
                                    });
                                }
                            }
                        }
                        match self.solve(body, depth + 1, plan) {
                            Err(e) => Err(e),
                            Ok(res) => {
                                if res.len() == 1 {
                                    match &res[0] {
                                        Token::Number(m) => {
                                            let num = clone_num(m);
                                            proof {
                                                assert(res.deep_view()[0] == TokV::Number(
                                                    num.deep_view(),
                                                ));
                                            }
                                            Ok(num)
                                        },
                                        _ => Err(CalcError::FailedToSolveEquation),
                                    }
                                } else {
                                    Err(CalcError::FailedToSolveEquation)
                                }
                            },
                        }
                    },
                }
            },
        }
    }
}

} // verus!
