//! User-defined functions: storage, definition, and parameter substitution.

use crate::token::{clone_num, clone_token, NumV, TokV, Token};
use vstd::prelude::*;

verus! {

broadcast use crate::token::lemma_bytes_deep_view;

/// A stored user-defined function: its name, its declared parameter count,
/// and a body in which every parameter reference has been rewritten to a
/// positional placeholder and every other variable has been frozen to the
/// value it had at definition time.
#[derive(Debug)]
pub struct Function {
    pub name: Vec<u8>,
    pub arg_count: usize,
    pub func: Vec<Token>,
}

/// Spec-level counterpart of [`Function`].
pub struct FuncV {
    pub name: Seq<u8>,
    pub arg_count: int,
    pub body: Seq<TokV>,
}

impl DeepView for Function {
    type V = FuncV;

    open spec fn deep_view(&self) -> FuncV {
        FuncV {
            name: self.name.deep_view(),
            arg_count: self.arg_count as int,
            body: self.func.deep_view(),
        }
    }
}

/// A stored function body the solver can always fill in: every placeholder
/// index lies below the declared parameter count, and no value in it refers
/// to a (transient, per-evaluation) plan step.
pub open spec fn func_wf(f: FuncV) -> bool {
    forall|i: int|
        0 <= i < f.body.len() ==> match #[trigger] f.body[i] {
            TokV::FunctionArg(j) => 0 <= j < f.arg_count,
            TokV::Number(n) => !(n is Ref),
            _ => true,
        }
}

/// A fresh copy of a stored body with every placeholder replaced by the
/// corresponding evaluated argument. An out-of-range placeholder (which a
/// well-formed function never holds) is left in place.
pub open spec fn spec_subst_args(body: Seq<TokV>, args: Seq<NumV>) -> Seq<TokV> {
    Seq::new(
        body.len(),
        |i: int|
            match body[i] {
                TokV::FunctionArg(j) => {
                    if 0 <= j < args.len() {
                        TokV::Number(args[j])
                    } else {
                        body[i]
                    }
                },
                t => t,
            },
    )
}

/// Exec counterpart of [`spec_subst_args`].
pub fn subst_args(body: &Vec<Token>, args: &Vec<crate::token::Num>) -> (r: Vec<Token>)
    ensures
        r.deep_view() == spec_subst_args(body.deep_view(), args.deep_view()),
{
    let ghost s = body.deep_view();
    let ghost av = args.deep_view();
    let n: usize = body.len();
    let mut out: Vec<Token> = Vec::new();
    let mut i: usize = 0;
    while i < n
        invariant
            i <= n == s.len(),
            body.deep_view() == s,
            args.deep_view() == av,
            out.deep_view() == spec_subst_args(s, av).subrange(0, i as int),
        decreases n - i,
    {
        let t = match &body[i] {
            Token::FunctionArg(j) => {
                if *j < args.len() {
                    Token::Number(clone_num(&args[*j]))
                } else {
                    Token::FunctionArg(*j)
                }
            },
            t => clone_token(t),
        };
        proof {
            assert(t.deep_view() == spec_subst_args(s, av)[i as int]);
        }
        let ghost prev_dv = out.deep_view();
        let ghost tv = t.deep_view();
        out.push(t);
        proof {
            assert(out.deep_view() =~= prev_dv.push(tv));
            assert(out.deep_view() =~= spec_subst_args(s, av).subrange(0, i + 1));
        }
        i = i + 1;
    }
    proof {
        assert(spec_subst_args(s, av).subrange(0, n as int) =~= spec_subst_args(s, av));
    }
    out
}

/// Rewrites every reference to one declared parameter into its positional
/// placeholder.
pub open spec fn subst_one(rhs: Seq<TokV>, arg_name: Seq<u8>, idx: int) -> Seq<TokV> {
    Seq::new(
        rhs.len(),
        |k: int|
            match rhs[k] {
                TokV::Variable(v) => {
                    if v == arg_name {
                        TokV::FunctionArg(idx)
                    } else {
                        rhs[k]
                    }
                },
                t => t,
            },
    )
}

/// Walks the header's tokens in declaration order; each declared parameter
/// rewrites its references on the right-hand side to the next placeholder
/// index.
pub open spec fn spec_subst_params(lhs: Seq<TokV>, rhs: Seq<TokV>, i: int, count: int) -> (
    Seq<TokV>,
    int,
)
    decreases lhs.len() - i,
{
    if i < 0 || i >= lhs.len() {
        (rhs, count)
    } else {
        match lhs[i] {
            TokV::Variable(a) => spec_subst_params(lhs, subst_one(rhs, a, count), i + 1, count + 1),
            _ => spec_subst_params(lhs, rhs, i + 1, count),
        }
    }
}

/// Parameter substitution only introduces placeholders below the final
/// count, and leaves every number untouched.
pub proof fn lemma_subst_params_wf(lhs: Seq<TokV>, rhs: Seq<TokV>, i: int, count: int)
    requires
        0 <= count,
        forall|m: int|
            0 <= m < rhs.len() ==> match #[trigger] rhs[m] {
                TokV::FunctionArg(j) => 0 <= j < count,
                _ => true,
            },
    ensures
        count <= spec_subst_params(lhs, rhs, i, count).1,
        spec_subst_params(lhs, rhs, i, count).0.len() == rhs.len(),
        forall|m: int|
            0 <= m < rhs.len() ==> match #[trigger] spec_subst_params(lhs, rhs, i, count).0[m] {
                TokV::FunctionArg(j) => 0 <= j < spec_subst_params(lhs, rhs, i, count).1,
                t => t == rhs[m],
            },
    decreases lhs.len() - i,
{
    if i < 0 || i >= lhs.len() {
    } else {
        match lhs[i] {
            TokV::Variable(a) => {
                let rhs2 = subst_one(rhs, a, count);
                assert(forall|m: int|
                    0 <= m < rhs2.len() ==> match #[trigger] rhs2[m] {
                        TokV::FunctionArg(j) => 0 <= j < count + 1,
                        _ => true,
                    });
                lemma_subst_params_wf(lhs, rhs2, i + 1, count + 1);
            },
            _ => {
                lemma_subst_params_wf(lhs, rhs, i + 1, count);
            },
        }
    }
}

/// Function definition: every declared parameter's references on the right
/// side become placeholders, every remaining variable is frozen to its
/// current value, and the header's name is taken; the variable resolution's
/// error, if any, comes first.
pub open spec fn spec_create(
    vars: Map<Seq<u8>, u64>,
    lhs: Seq<TokV>,
    rhs: Seq<TokV>,
) -> Result<FuncV, crate::error::ErrV>
    recommends
        lhs.len() >= 1,
{
    let substituted = spec_subst_params(lhs, rhs, 0, 0);
    match crate::engine::spec_resolve(vars, substituted.0) {
        Err(e) => Err(e),
        Ok(body) => {
            if lhs[0] is FunctionName {
                Ok(
                    FuncV {
                        name: lhs[0]->FunctionName_0,
                        arg_count: substituted.1,
                        body,
                    },
                )
            } else {
                Err(crate::error::ErrV::FuncNoName)
            }
        },
    }
}

/// Exec counterpart of [`subst_one`].
fn subst_one_exec(rhs: &Vec<Token>, arg_name: &Vec<u8>, idx: usize) -> (r: Vec<Token>)
    ensures
        r.deep_view() == subst_one(rhs.deep_view(), arg_name@, idx as int),
{
    let ghost s = rhs.deep_view();
    let ghost nm = arg_name@;
    let n: usize = rhs.len();
    let mut out: Vec<Token> = Vec::new();
    let mut i: usize = 0;
    while i < n
        invariant
            i <= n == s.len(),
            rhs.deep_view() == s,
            arg_name@ == nm,
            out.deep_view() == subst_one(s, nm, idx as int).subrange(0, i as int),
        decreases n - i,
    {
        let t = match &rhs[i] {
            Token::Variable(v) => {
                if crate::token::bytes_eq(v, arg_name) {
                    Token::FunctionArg(idx)
                } else {
                    Token::Variable(crate::token::clone_bytes(v))
                }
            },
            t => clone_token(t),
        };
        proof {
            assert(t.deep_view() == subst_one(s, nm, idx as int)[i as int]);
        }
        let ghost prev_dv = out.deep_view();
        let ghost tv = t.deep_view();
        out.push(t);
        proof {
            assert(out.deep_view() =~= prev_dv.push(tv));
            assert(out.deep_view() =~= subst_one(s, nm, idx as int).subrange(0, i + 1));
        }
        i = i + 1;
    }
    proof {
        assert(subst_one(s, nm, idx as int).subrange(0, n as int) =~= subst_one(
            s,
            nm,
            idx as int,
        ));
    }
    out
}

impl crate::engine::Calculator {
    /// Builds a stored function from a validated header and a right-hand
    /// side: parameter references become placeholders, all other variables
    /// are frozen to their current values. The produced function is
    /// well-formed, so the solver can always fill its body in.
    pub fn create_function(&self, lhs: &Vec<Token>, rhs: Vec<Token>) -> (r: Result<
        Function,
        crate::error::CalcError,
    >)
        requires
            lhs.deep_view().len() >= 1,
            forall|m: int|
                0 <= m < rhs.deep_view().len() ==> !(#[trigger] rhs.deep_view()[m] is FunctionArg),
            forall|m: int|
                0 <= m < rhs.deep_view().len() ==> (#[trigger] rhs.deep_view()[m] is Number
                    ==> !(rhs.deep_view()[m]->Number_0 is Ref)),
        ensures
            match r {
                Ok(f) => spec_create(self.ctx().vars, lhs.deep_view(), rhs.deep_view()) == Ok::<
                    FuncV,
                    crate::error::ErrV,
                >(f.deep_view()) && func_wf(f.deep_view()),
                Err(e) => spec_create(self.ctx().vars, lhs.deep_view(), rhs.deep_view()) == Err::<
                    FuncV,
                    crate::error::ErrV,
                >(e.deep_view()),
            },
    {
        let ghost lhs_dv = lhs.deep_view();
        let ghost rhs0 = rhs.deep_view();
        let ghost vars = self.ctx().vars;

        let mut arg_count: usize = 0;
        let mut rhs = rhs;
        let n: usize = lhs.len();
        let mut i: usize = 0;
        while i < n
            invariant
                i <= n == lhs_dv.len(),
                lhs.deep_view() == lhs_dv,
                arg_count <= i,
                spec_subst_params(lhs_dv, rhs0, 0, 0) == spec_subst_params(
                    lhs_dv,
                    rhs.deep_view(),
                    i as int,
                    arg_count as int,
                ),
            decreases n - i,
        {
            match &lhs[i] {
                Token::Variable(arg_name) => {
                    let replaced = subst_one_exec(&rhs, arg_name, arg_count);
                    proof {
                        assert(spec_subst_params(
                            lhs_dv,
                            rhs.deep_view(),
                            i as int,
                            arg_count as int,
                        ) == spec_subst_params(
                            lhs_dv,
                            replaced.deep_view(),
                            i + 1,
                            arg_count + 1,
                        ));
                    }
                    rhs = replaced;
                    arg_count = arg_count + 1;
                },
                _ => {
                    proof {
                        assert(spec_subst_params(
                            lhs_dv,
                            rhs.deep_view(),
                            i as int,
                            arg_count as int,
                        ) == spec_subst_params(lhs_dv, rhs.deep_view(), i + 1, arg_count as int));
                    }
                },
            }
            i = i + 1;
        }
        let ghost rhs2 = rhs.deep_view();
        proof {
            assert(spec_subst_params(lhs_dv, rhs0, 0, 0) == (rhs2, arg_count as int));
            lemma_subst_params_wf(lhs_dv, rhs0, 0, 0);
        }

        let body = match self.resolve_variables(rhs) {
            Ok(v) => v,
            Err(e) => {
                return Err(e);
            },
        };
        let ghost body_dv = body.deep_view();
        proof {
            crate::engine::lemma_resolve_shape(vars, rhs2);
        }

        let func_name = match &lhs[0] {
            Token::FunctionName(nm) => crate::token::clone_bytes(nm),
            _ => {
                return Err(crate::error::CalcError::FuncNoName);
            },
        };
        let func = Function { name: func_name, arg_count, func: body };
        proof {
            assert(func_wf(func.deep_view())) by {
                assert forall|m: int|
                    0 <= m < body_dv.len() implies match #[trigger] body_dv[m] {
                    TokV::FunctionArg(j) => 0 <= j < arg_count as int,
                    TokV::Number(nn) => !(nn is Ref),
                    _ => true,
                } by {
                    assert(match rhs2[m] {
                        TokV::FunctionArg(j) => 0 <= j < arg_count as int,
                        t => t == rhs0[m],
                    });
                }
            }
        }
        Ok(func)
    }
}

} // verus!
