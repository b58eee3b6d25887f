//! Laws of the evaluator, stated and proved over the evaluation
//! specification that the executable functions are verified against.

use crate::engine::{
    find_assign, nm_ans, spec_eval, spec_resolve, spec_strip, CtxV, EvalOutcomeV,
};
use crate::error::ErrV;
use crate::math_function::lemma_subst_params_wf;
use crate::solve::{find_red, find_structural, reducible_at, spec_reduce_tier, Tier};
use crate::token::{lemma_tokenize_shape, NumV, TokV};
use vstd::prelude::*;

verus! {

/// Whether the line, once lexed, holds a reference to the variable `nm`.
pub open spec fn mentions_variable(input: Seq<u8>, nm: Seq<u8>) -> bool {
    crate::token::spec_tokenize(spec_strip(input)) is Ok && exists|m: int|
        0 <= m < crate::token::spec_tokenize(spec_strip(input))->Ok_0.len()
            && crate::token::spec_tokenize(spec_strip(input))->Ok_0[m] == TokV::Variable(nm)
}

/// Whether the line, once lexed, holds any variable reference at all.
pub open spec fn mentions_any_variable(input: Seq<u8>) -> bool {
    crate::token::spec_tokenize(spec_strip(input)) is Ok && exists|m: int|
        0 <= m < crate::token::spec_tokenize(spec_strip(input))->Ok_0.len()
            && (#[trigger] crate::token::spec_tokenize(spec_strip(input))->Ok_0[m]) is Variable
}

/// Two variable tables that agree at every name the token sequence mentions.
pub open spec fn vars_agree_on(
    s: Seq<TokV>,
    v1: Map<Seq<u8>, u64>,
    v2: Map<Seq<u8>, u64>,
) -> bool {
    forall|m: int|
        0 <= m < s.len() ==> ((#[trigger] s[m]) is Variable ==> (v1.contains_key(
            s[m]->Variable_0,
        ) == v2.contains_key(s[m]->Variable_0) && (v1.contains_key(s[m]->Variable_0)
            ==> v1[s[m]->Variable_0] == v2[s[m]->Variable_0])))
}

/// A found assignment token lies inside the sequence.
proof fn lemma_find_assign_bounds(s: Seq<TokV>, i: int)
    ensures
        find_assign(s, i) is Some ==> i <= find_assign(s, i)->Some_0 < s.len(),
    decreases s.len() - i,
{
    if i < 0 || i >= s.len() {
    } else if s[i] is Assignment {
    } else {
        lemma_find_assign_bounds(s, i + 1);
    }
}

/// Variable resolution reads the table only at the names the sequence
/// mentions.
proof fn lemma_resolve_frame(v1: Map<Seq<u8>, u64>, v2: Map<Seq<u8>, u64>, s: Seq<TokV>)
    requires
        vars_agree_on(s, v1, v2),
    ensures
        spec_resolve(v1, s) == spec_resolve(v2, s),
    decreases s.len(),
{
    if s.len() == 0 {
    } else {
        let tail = s.subrange(1, s.len() as int);
        assert(vars_agree_on(tail, v1, v2)) by {
            assert(forall|m: int| 0 <= m < tail.len() ==> tail[m] == s[m + 1]);
        }
        lemma_resolve_frame(v1, v2, tail);
    }
}

/// One whole evaluation reads the variable table only at the names the
/// line's tokens mention: under two tables that agree there (and the same
/// function table and angle mode), every line evaluates to the same
/// outcome.
#[verifier::rlimit(100)]
pub proof fn lemma_eval_vars_frame(ctx1: CtxV, ctx2: CtxV, input: Seq<u8>)
    requires
        ctx1.funcs == ctx2.funcs,
        ctx1.radians == ctx2.radians,
        crate::token::spec_tokenize(spec_strip(input)) is Ok ==> vars_agree_on(
            crate::token::spec_tokenize(spec_strip(input))->Ok_0,
            ctx1.vars,
            ctx2.vars,
        ),
    ensures
        spec_eval(ctx1, input) == spec_eval(ctx2, input),
{
    let stripped = spec_strip(input);
    if crate::token::spec_tokenize(stripped) is Ok {
        let toks = crate::token::spec_tokenize(stripped)->Ok_0;
        lemma_tokenize_shape(stripped);
        lemma_find_assign_bounds(toks, 0);
        if crate::validate::spec_validate(toks) is None {
            match find_assign(toks, 0) {
                Some(k) => {
                    {
                        assert(0 <= k < toks.len());
                        let lhs = toks.subrange(0, k);
                        let rhs = toks.subrange(k + 1, toks.len() as int);
                        assert(vars_agree_on(rhs, ctx1.vars, ctx2.vars)) by {
                            assert(forall|m: int|
                                0 <= m < rhs.len() ==> rhs[m] == toks[m + k + 1]);
                        }
                        if lhs.len() == 1 && lhs[0] is Variable {
                            lemma_resolve_frame(ctx1.vars, ctx2.vars, rhs);
                        } else if lhs.len() != 1 {
                            let substituted = crate::math_function::spec_subst_params(
                                lhs,
                                rhs,
                                0,
                                0,
                            );
                            assert(forall|m: int|
                                0 <= m < rhs.len() ==> match #[trigger] rhs[m] {
                                    TokV::FunctionArg(j) => 0 <= j < 0,
                                    _ => true,
                                });
                            lemma_subst_params_wf(lhs, rhs, 0, 0);
                            assert(vars_agree_on(substituted.0, ctx1.vars, ctx2.vars)) by {
                                assert forall|m: int|
                                    0 <= m < substituted.0.len() implies (
                                (#[trigger] substituted.0[m]) is Variable ==> (
                                ctx1.vars.contains_key(substituted.0[m]->Variable_0)
                                    == ctx2.vars.contains_key(substituted.0[m]->Variable_0) && (
                                ctx1.vars.contains_key(substituted.0[m]->Variable_0)
                                    ==> ctx1.vars[substituted.0[m]->Variable_0]
                                    == ctx2.vars[substituted.0[m]->Variable_0]))) by {
                                    if substituted.0[m] is Variable {
                                        assert(substituted.0[m] == rhs[m]);
                                    }
                                }
                            }
                            lemma_resolve_frame(ctx1.vars, ctx2.vars, substituted.0);
                        }
                    }
                },
                None => {
                    lemma_resolve_frame(ctx1.vars, ctx2.vars, toks);
                },
            }
        }
    }
}

/// Recording an answer disturbs no pure expression: a line that never reads
/// `ans` evaluates to the same outcome before and after the answer slot is
/// rewritten. With the evaluator's contract (its result equals
/// [`spec_eval`] of the state and the line), evaluating the same pure
/// expression twice therefore yields identical results.
pub proof fn lemma_pure_eval_idempotent(ctx: CtxV, input: Seq<u8>, bits: u64)
    requires
        !mentions_variable(input, nm_ans()),
    ensures
        spec_eval(
            CtxV { vars: ctx.vars.insert(nm_ans(), bits), funcs: ctx.funcs, radians: ctx.radians },
            input,
        ) == spec_eval(ctx, input),
{
    let ctx2 = CtxV {
        vars: ctx.vars.insert(nm_ans(), bits),
        funcs: ctx.funcs,
        radians: ctx.radians,
    };
    let stripped = spec_strip(input);
    if crate::token::spec_tokenize(stripped) is Ok {
        let toks = crate::token::spec_tokenize(stripped)->Ok_0;
        assert(vars_agree_on(toks, ctx2.vars, ctx.vars)) by {
            assert forall|m: int|
                0 <= m < toks.len() implies ((#[trigger] toks[m]) is Variable ==> (
            ctx2.vars.contains_key(toks[m]->Variable_0) == ctx.vars.contains_key(
                toks[m]->Variable_0,
            ) && (ctx2.vars.contains_key(toks[m]->Variable_0) ==> ctx2.vars[toks[m]->Variable_0]
                == ctx.vars[toks[m]->Variable_0]))) by {
                if toks[m] is Variable {
                    assert(toks[m] != TokV::Variable(nm_ans()));
                    assert(toks[m]->Variable_0 != nm_ans());
                }
            }
        }
    }
    lemma_eval_vars_frame(ctx2, ctx, input);
}

/// Definitions freeze their environment: a line that mentions no variable
/// at all - a call of a user-defined function on literal arguments, say -
/// evaluates the same under any variable table. Redefining a variable after
/// a function was defined therefore cannot change what a call of that
/// function computes.
pub proof fn lemma_definitions_frozen(ctx1: CtxV, ctx2: CtxV, input: Seq<u8>)
    requires
        ctx1.funcs == ctx2.funcs,
        ctx1.radians == ctx2.radians,
        !mentions_any_variable(input),
    ensures
        spec_eval(ctx1, input) == spec_eval(ctx2, input),
{
    let stripped = spec_strip(input);
    if crate::token::spec_tokenize(stripped) is Ok {
        let toks = crate::token::spec_tokenize(stripped)->Ok_0;
        assert(vars_agree_on(toks, ctx1.vars, ctx2.vars)) by {
            assert(forall|m: int| 0 <= m < toks.len() ==> !((#[trigger] toks[m]) is Variable));
        }
    }
    lemma_eval_vars_frame(ctx1, ctx2, input);
}

/// The multiplicative tier reduces before the additive one: for all three
/// operand values, `x + y * z` plans the multiplication of `y` and `z`
/// first and then adds `x` to its result.
pub proof fn lemma_mul_binds_before_add(
    funcs: Map<Seq<u8>, crate::math_function::FuncV>,
    radians: bool,
    x: NumV,
    y: NumV,
    z: NumV,
)
    ensures
        crate::solve::spec_solve(
            funcs,
            radians,
            seq![
                TokV::Number(x),
                TokV::Addition,
                TokV::Number(y),
                TokV::Multiplication,
                TokV::Number(z),
            ],
            0,
            Seq::empty(),
        ) == Ok::<(Seq<TokV>, Seq<crate::plan::StepV>), ErrV>(
            (
                seq![TokV::Number(NumV::Ref(1))],
                seq![
                    crate::plan::StepV::Bin { op: crate::plan::BinOp::Mul, a: y, b: z },
                    crate::plan::StepV::Bin { op: crate::plan::BinOp::Add, a: x, b: NumV::Ref(0) },
                ],
            ),
        ),
{
    let s = seq![
        TokV::Number(x),
        TokV::Addition,
        TokV::Number(y),
        TokV::Multiplication,
        TokV::Number(z),
    ];
    let p0 = Seq::<crate::plan::StepV>::empty();

    // no brackets or calls: the structural phase is the identity
    assert(find_structural(s, 0) is None) by {
        assert(find_structural(s, 0) == find_structural(s, 1));
        assert(find_structural(s, 1) == find_structural(s, 2));
        assert(find_structural(s, 2) == find_structural(s, 3));
        assert(find_structural(s, 3) == find_structural(s, 4));
        assert(find_structural(s, 4) == find_structural(s, 5));
    }
    assert(crate::solve::spec_structural(funcs, radians, s, 1, p0) == Ok::<
        (Seq<TokV>, Seq<crate::plan::StepV>),
        ErrV,
    >((s, p0)));

    // no exponentiation
    assert(find_red(s, Tier::Pow, 0) is None) by {
        assert(find_red(s, Tier::Pow, 0) == find_red(s, Tier::Pow, 1));
        assert(find_red(s, Tier::Pow, 1) == find_red(s, Tier::Pow, 2));
        assert(find_red(s, Tier::Pow, 2) == find_red(s, Tier::Pow, 3));
        assert(find_red(s, Tier::Pow, 3) == find_red(s, Tier::Pow, 4));
        assert(find_red(s, Tier::Pow, 4) == find_red(s, Tier::Pow, 5));
    }
    assert(spec_reduce_tier(s, Tier::Pow, p0) == (s, p0));

    // the multiplicative tier collapses y * z into plan step 0
    let p1 = seq![crate::plan::StepV::Bin { op: crate::plan::BinOp::Mul, a: y, b: z }];
    let s1 = seq![TokV::Number(x), TokV::Addition, TokV::Number(NumV::Ref(0))];
    assert(find_red(s, Tier::MulDivMod, 0) == Some(3int)) by {
        assert(find_red(s, Tier::MulDivMod, 0) == find_red(s, Tier::MulDivMod, 1));
        assert(find_red(s, Tier::MulDivMod, 1) == find_red(s, Tier::MulDivMod, 2));
        assert(find_red(s, Tier::MulDivMod, 2) == find_red(s, Tier::MulDivMod, 3));
        assert(reducible_at(s, Tier::MulDivMod, 3));
    }
    assert(s.subrange(0, 2) + seq![TokV::Number(NumV::Ref(0))] + s.subrange(5, 5) =~= s1);
    assert(p0.push(crate::plan::StepV::Bin { op: crate::plan::BinOp::Mul, a: y, b: z }) =~= p1);
    assert(find_red(s1, Tier::MulDivMod, 0) is None) by {
        assert(find_red(s1, Tier::MulDivMod, 0) == find_red(s1, Tier::MulDivMod, 1));
        assert(find_red(s1, Tier::MulDivMod, 1) == find_red(s1, Tier::MulDivMod, 2));
        assert(find_red(s1, Tier::MulDivMod, 2) == find_red(s1, Tier::MulDivMod, 3));
    }
    assert(spec_reduce_tier(s1, Tier::MulDivMod, p1) == (s1, p1));
    assert(spec_reduce_tier(s, Tier::MulDivMod, p0) == (s1, p1));

    // no bitwise operators
    assert(find_red(s1, Tier::Bitwise, 0) is None) by {
        assert(find_red(s1, Tier::Bitwise, 0) == find_red(s1, Tier::Bitwise, 1));
        assert(find_red(s1, Tier::Bitwise, 1) == find_red(s1, Tier::Bitwise, 2));
        assert(find_red(s1, Tier::Bitwise, 2) == find_red(s1, Tier::Bitwise, 3));
    }
    assert(spec_reduce_tier(s1, Tier::Bitwise, p1) == (s1, p1));

    // the additive tier adds x to the product, as plan step 1
    let p2 = p1.push(
        crate::plan::StepV::Bin { op: crate::plan::BinOp::Add, a: x, b: NumV::Ref(0) },
    );
    let s2 = seq![TokV::Number(NumV::Ref(1))];
    assert(find_red(s1, Tier::AddSub, 0) == Some(1int)) by {
        assert(find_red(s1, Tier::AddSub, 0) == find_red(s1, Tier::AddSub, 1));
        assert(reducible_at(s1, Tier::AddSub, 1));
    }
    assert(s1.subrange(0, 0) + seq![TokV::Number(NumV::Ref(1))] + s1.subrange(3, 3) =~= s2);
    assert(find_red(s2, Tier::AddSub, 0) is None) by {
        assert(find_red(s2, Tier::AddSub, 0) == find_red(s2, Tier::AddSub, 1));
    }
    assert(spec_reduce_tier(s2, Tier::AddSub, p2) == (s2, p2));
    assert(spec_reduce_tier(s1, Tier::AddSub, p1) == (s2, p2));

    assert(crate::solve::spec_solve_rec(funcs, radians, s, 1, p0) == Ok::<
        (Seq<TokV>, Seq<crate::plan::StepV>),
        ErrV,
    >((s2, p2)));
    assert(p2 =~= seq![
        crate::plan::StepV::Bin { op: crate::plan::BinOp::Mul, a: y, b: z },
        crate::plan::StepV::Bin { op: crate::plan::BinOp::Add, a: x, b: NumV::Ref(0) },
    ]);
}

/// The exponentiation tier is left-associative by construction: for all
/// three operand values, `x ^ y ^ z` plans `x ^ y` first and raises its
/// result to `z`, not the mathematical right-to-left reading.
pub proof fn lemma_exponentiation_left_associative(
    funcs: Map<Seq<u8>, crate::math_function::FuncV>,
    radians: bool,
    x: NumV,
    y: NumV,
    z: NumV,
)
    ensures
        crate::solve::spec_solve(
            funcs,
            radians,
            seq![
                TokV::Number(x),
                TokV::Exponentation,
                TokV::Number(y),
                TokV::Exponentation,
                TokV::Number(z),
            ],
            0,
            Seq::empty(),
        ) == Ok::<(Seq<TokV>, Seq<crate::plan::StepV>), ErrV>(
            (
                seq![TokV::Number(NumV::Ref(1))],
                seq![
                    crate::plan::StepV::Bin { op: crate::plan::BinOp::Pow, a: x, b: y },
                    crate::plan::StepV::Bin {
                        op: crate::plan::BinOp::Pow,
                        a: NumV::Ref(0),
                        b: z,
                    },
                ],
            ),
        ),
{
    let s = seq![
        TokV::Number(x),
        TokV::Exponentation,
        TokV::Number(y),
        TokV::Exponentation,
        TokV::Number(z),
    ];
    let p0 = Seq::<crate::plan::StepV>::empty();

    assert(find_structural(s, 0) is None) by {
        assert(find_structural(s, 0) == find_structural(s, 1));
        assert(find_structural(s, 1) == find_structural(s, 2));
        assert(find_structural(s, 2) == find_structural(s, 3));
        assert(find_structural(s, 3) == find_structural(s, 4));
        assert(find_structural(s, 4) == find_structural(s, 5));
    }
    assert(crate::solve::spec_structural(funcs, radians, s, 1, p0) == Ok::<
        (Seq<TokV>, Seq<crate::plan::StepV>),
        ErrV,
    >((s, p0)));

    // the leftmost exponentiation collapses first: x ^ y as plan step 0
    let p1 = seq![crate::plan::StepV::Bin { op: crate::plan::BinOp::Pow, a: x, b: y }];
    let s1 = seq![TokV::Number(NumV::Ref(0)), TokV::Exponentation, TokV::Number(z)];
    assert(find_red(s, Tier::Pow, 0) == Some(1int)) by {
        assert(find_red(s, Tier::Pow, 0) == find_red(s, Tier::Pow, 1));
        assert(reducible_at(s, Tier::Pow, 1));
    }
    assert(s.subrange(0, 0) + seq![TokV::Number(NumV::Ref(0))] + s.subrange(3, 5) =~= s1);
    assert(p0.push(crate::plan::StepV::Bin { op: crate::plan::BinOp::Pow, a: x, b: y }) =~= p1);

    // then the remaining one: the first result raised to z, as plan step 1
    let p2 = p1.push(
        crate::plan::StepV::Bin { op: crate::plan::BinOp::Pow, a: NumV::Ref(0), b: z },
    );
    let s2 = seq![TokV::Number(NumV::Ref(1))];
    assert(find_red(s1, Tier::Pow, 0) == Some(1int)) by {
        assert(find_red(s1, Tier::Pow, 0) == find_red(s1, Tier::Pow, 1));
        assert(reducible_at(s1, Tier::Pow, 1));
    }
    assert(s1.subrange(0, 0) + seq![TokV::Number(NumV::Ref(1))] + s1.subrange(3, 3) =~= s2);
    assert(find_red(s2, Tier::Pow, 0) is None) by {
        assert(find_red(s2, Tier::Pow, 0) == find_red(s2, Tier::Pow, 1));
    }
    assert(spec_reduce_tier(s2, Tier::Pow, p2) == (s2, p2));
    assert(spec_reduce_tier(s1, Tier::Pow, p1) == (s2, p2));
    assert(spec_reduce_tier(s, Tier::Pow, p0) == (s2, p2));

    lemma_reduce_tier_single(s2, Tier::MulDivMod, p2);
    lemma_reduce_tier_single(s2, Tier::Bitwise, p2);
    lemma_reduce_tier_single(s2, Tier::AddSub, p2);

    assert(crate::solve::spec_solve_rec(funcs, radians, s, 1, p0) == Ok::<
        (Seq<TokV>, Seq<crate::plan::StepV>),
        ErrV,
    >((s2, p2)));
    assert(p2 =~= seq![
        crate::plan::StepV::Bin { op: crate::plan::BinOp::Pow, a: x, b: y },
        crate::plan::StepV::Bin { op: crate::plan::BinOp::Pow, a: NumV::Ref(0), b: z },
    ]);
}

/// Stripping whitespace from a whitespace-free byte string changes nothing.
proof fn lemma_strip_identity(s: Seq<u8>)
    requires
        forall|m: int| 0 <= m < s.len() ==> !crate::engine::is_ascii_ws(#[trigger] s[m]),
    ensures
        spec_strip(s) == s,
    decreases s.len(),
{
    if s.len() == 0 {
        assert(spec_strip(s) =~= s);
    } else {
        lemma_strip_identity(s.drop_last());
        assert(spec_strip(s) =~= s.drop_last() + seq![s.last()]);
        assert(s.drop_last() + seq![s.last()] =~= s);
    }
}

/// A run over bytes that all belong to the class reaches the end.
proof fn lemma_run_end_full(kind: crate::token::CharKind, s: Seq<u8>, i: int)
    requires
        0 <= i <= s.len(),
        forall|j: int| i <= j < s.len() ==> crate::token::in_kind(kind, #[trigger] s[j]),
    ensures
        crate::token::run_end(kind, s, i) == s.len(),
    decreases s.len() - i,
{
    if i < s.len() {
        lemma_run_end_full(kind, s, i + 1);
    }
}

/// A single number is already fully reduced: every tier leaves it alone.
proof fn lemma_reduce_tier_single(s: Seq<TokV>, tier: Tier, plan: Seq<crate::plan::StepV>)
    requires
        s.len() == 1,
    ensures
        spec_reduce_tier(s, tier, plan) == (s, plan),
{
    assert(!reducible_at(s, tier, 0));
    assert(find_red(s, tier, 0) == find_red(s, tier, 1));
    assert(find_red(s, tier, 1) is None);
}

/// The solver maps a lone number to itself and records no arithmetic.
proof fn lemma_solve_single_number(
    funcs: Map<Seq<u8>, crate::math_function::FuncV>,
    radians: bool,
    num: NumV,
    plan: Seq<crate::plan::StepV>,
)
    ensures
        crate::solve::spec_solve(funcs, radians, seq![TokV::Number(num)], 0, plan) == Ok::<
            (Seq<TokV>, Seq<crate::plan::StepV>),
            ErrV,
        >((seq![TokV::Number(num)], plan)),
{
    let t = seq![TokV::Number(num)];
    assert(find_structural(t, 0) == find_structural(t, 1));
    assert(find_structural(t, 1) is None);
    assert(crate::solve::spec_structural(funcs, radians, t, 1, plan) == Ok::<
        (Seq<TokV>, Seq<crate::plan::StepV>),
        ErrV,
    >((t, plan)));
    lemma_reduce_tier_single(t, Tier::Pow, plan);
    lemma_reduce_tier_single(t, Tier::MulDivMod, plan);
    lemma_reduce_tier_single(t, Tier::Bitwise, plan);
    lemma_reduce_tier_single(t, Tier::AddSub, plan);
    assert(crate::solve::spec_solve_rec(funcs, radians, t, 1, plan) == Ok::<
        (Seq<TokV>, Seq<crate::plan::StepV>),
        ErrV,
    >((t, plan)));
}

/// Round-trip: once a value is stored under a variable name, evaluating the
/// bare name yields exactly that value, with no arithmetic left to do. (The
/// store overwrites: the table maps the name to the latest value, whatever
/// was there before.)
pub proof fn lemma_variable_round_trip(ctx: CtxV, name: Seq<u8>, bits: u64)
    requires
        name.len() >= 1,
        forall|m: int| 0 <= m < name.len() ==> crate::token::is_string_part(#[trigger] name[m]),
    ensures
        spec_eval(
            CtxV { vars: ctx.vars.insert(name, bits), funcs: ctx.funcs, radians: ctx.radians },
            name,
        ) == Ok::<EvalOutcomeV, ErrV>(
            EvalOutcomeV::Answer { plan: Seq::empty(), result: NumV::Bits(bits) },
        ),
{
    let ctx2 = CtxV { vars: ctx.vars.insert(name, bits), funcs: ctx.funcs, radians: ctx.radians };

    // whitespace strip: identifier bytes hold no whitespace
    assert(spec_strip(name) == name) by {
        assert(forall|m: int|
            0 <= m < name.len() ==> !crate::engine::is_ascii_ws(#[trigger] name[m]));
        lemma_strip_identity(name);
    }

    // the scan finds one maximal identifier run
    lemma_run_end_full(crate::token::CharKind::StringPart, name, 1);
    let e = crate::token::run_end(crate::token::CharKind::StringPart, name, 1);
    assert(e == name.len());
    assert(name.subrange(0, e) =~= name);
    assert(crate::token::spec_scan(name, name.len() as int) == Ok::<Seq<TokV>, ErrV>(
        Seq::empty(),
    ));
    let raw = seq![TokV::UnresolvedString(name)];
    assert(crate::token::spec_scan(name, 0) == Ok::<Seq<TokV>, ErrV>(raw)) by {
        assert(raw + Seq::<TokV>::empty() =~= raw);
    }

    // nothing to fold, and the lone identifier resolves to a variable
    assert(crate::token::spec_fold(raw, 0) == raw);
    let toks = seq![TokV::Variable(name)];
    assert(crate::token::spec_resolve_strings(raw) =~= toks);
    assert(crate::token::spec_tokenize(name) == Ok::<Seq<TokV>, ErrV>(toks));

    // a lone variable token is grammatically valid
    assert(crate::validate::spec_validate(toks) is None) by {
        assert(toks.drop_last() =~= Seq::<TokV>::empty());
        assert(crate::validate::count_assign(Seq::<TokV>::empty()) == 0);
        assert(crate::validate::count_assign(toks) == 0);
        assert(crate::validate::bracket_balance(Seq::<TokV>::empty()) == 0);
        assert(crate::validate::bracket_balance(toks) == 0);
        assert(crate::validate::comma_scope_ok(toks, 1, false, 0));
        assert(crate::validate::comma_scope_ok(toks, 0, false, 0));
    }

    // no assignment: the line is a plain expression
    assert(find_assign(toks, 0) == find_assign(toks, 1));
    assert(find_assign(toks, 1) is None);

    // the variable resolves to the stored value
    let resolved = seq![TokV::Number(NumV::Bits(bits))];
    assert(spec_resolve(ctx2.vars, toks) == Ok::<Seq<TokV>, ErrV>(resolved)) by {
        assert(toks.subrange(1, 1) =~= Seq::<TokV>::empty());
        assert(spec_resolve(ctx2.vars, Seq::<TokV>::empty()) == Ok::<Seq<TokV>, ErrV>(
            Seq::empty(),
        ));
        assert(resolved + Seq::<TokV>::empty() =~= resolved);
    }

    // and the solver hands it back unchanged
    lemma_solve_single_number(ctx2.funcs, ctx2.radians, NumV::Bits(bits), Seq::empty());
}

} // verus!
