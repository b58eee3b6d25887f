//! The calculator state and the top-level evaluation entry point.

use crate::error::{CalcError, ErrV};
use crate::map::VecMap;
use crate::math_function::{func_wf, FuncV, Function};
use crate::token::{clone_bytes, clone_num, NumV, TokV, Token};
use vstd::prelude::*;

verus! {

broadcast use crate::token::lemma_bytes_deep_view;

// IEEE-754 bit patterns of the pre-seeded constants.
pub const PI_BITS: u64 = 0x400921FB54442D18;
pub const E_BITS: u64 = 0x4005BF0A8B145769;
pub const TAU_BITS: u64 = 0x401921FB54442D18;
pub const ZERO_BITS: u64 = 0;

// The names of the pre-seeded variables and of the last-answer slot.
pub open spec fn nm_pi() -> Seq<u8> {
    seq![112u8, 105u8]
}

pub open spec fn nm_e() -> Seq<u8> {
    seq![101u8]
}

pub open spec fn nm_tau() -> Seq<u8> {
    seq![116u8, 97u8, 117u8]
}

pub open spec fn nm_ans() -> Seq<u8> {
    seq![97u8, 110u8, 115u8]
}

/// The spec-level evaluation context: what the solver reads of the state.
pub struct CtxV {
    pub vars: Map<Seq<u8>, u64>,
    pub funcs: Map<Seq<u8>, FuncV>,
    pub radians: bool,
}

/// The process-lifetime calculator state: the last answer, the variable
/// table (values as IEEE-754 bit patterns), the user-defined function table,
/// and the angle-mode flag.
#[derive(Debug)]
pub struct Calculator {
    pub prev_answer: u64,
    pub variables: VecMap<u64>,
    pub functions: VecMap<Function>,
    pub use_radians: bool,
}

impl Calculator {
    /// What the solver reads of the state.
    pub open spec fn ctx(&self) -> CtxV {
        CtxV { vars: self.variables@, funcs: self.functions@, radians: self.use_radians }
    }

    /// The last answer, as an IEEE-754 bit pattern.
    pub open spec fn spec_prev_answer(&self) -> u64 {
        self.prev_answer
    }

    /// Every stored function body can always be filled in by the solver.
    pub open spec fn wf(&self) -> bool {
        forall|k: Seq<u8>|
            self.functions@.contains_key(k) ==> func_wf(#[trigger] self.functions@[k])
    }

    /// A fresh calculator: last answer zero, `pi`, `e` and `tau` pre-seeded,
    /// no user-defined functions, radian mode.
    pub fn new() -> (r: Calculator)
        ensures
            r.wf(),
            r.spec_prev_answer() == ZERO_BITS,
            r.ctx().vars == Map::<Seq<u8>, u64>::empty().insert(nm_pi(), PI_BITS).insert(
                nm_e(),
                E_BITS,
            ).insert(nm_tau(), TAU_BITS),
            r.ctx().funcs == Map::<Seq<u8>, FuncV>::empty(),
            r.ctx().radians,
    {
        let mut calc_engine = Calculator {
            prev_answer: ZERO_BITS,
            variables: VecMap::new(),
            functions: VecMap::new(),
            use_radians: true,
        };
        let pi_name: Vec<u8> = vec![112u8, 105u8];
        let e_name: Vec<u8> = vec![101u8];
        let tau_name: Vec<u8> = vec![116u8, 97u8, 117u8];
        proof {
            assert(pi_name@ =~= nm_pi());
            assert(e_name@ =~= nm_e());
            assert(tau_name@ =~= nm_tau());
        }
        calc_engine.variables.insert(pi_name, PI_BITS);
        calc_engine.variables.insert(e_name, E_BITS);
        calc_engine.variables.insert(tau_name, TAU_BITS);
        calc_engine
    }

    /// Stores a computed value (handed back by the embedding program after
    /// it executed a plan) under a variable name.
    pub fn store_var(&mut self, name: Vec<u8>, bits: u64)
        ensures
            final(self).ctx().vars == old(self).ctx().vars.insert(name@, bits),
            final(self).ctx().funcs == old(self).ctx().funcs,
            final(self).ctx().radians == old(self).ctx().radians,
            final(self).spec_prev_answer() == old(self).spec_prev_answer(),
            old(self).wf() ==> final(self).wf(),
    {
        self.variables.insert(name, bits);
    }

    /// Records a successful evaluation's result: the last-answer slot and
    /// the `ans` variable both take the value.
    pub fn record_answer(&mut self, bits: u64)
        ensures
            final(self).ctx().vars == old(self).ctx().vars.insert(nm_ans(), bits),
            final(self).ctx().funcs == old(self).ctx().funcs,
            final(self).ctx().radians == old(self).ctx().radians,
            final(self).spec_prev_answer() == bits,
            old(self).wf() ==> final(self).wf(),
    {
        self.prev_answer = bits;
        let ans_name: Vec<u8> = vec![97u8, 110u8, 115u8];
        proof {
            assert(ans_name@ =~= nm_ans());
        }
        self.variables.insert(ans_name, bits);
    }

    /// Looks a variable up, as an IEEE-754 bit pattern.
    pub fn get_variable(&self, name: &Vec<u8>) -> (r: Option<u64>)
        ensures
            match r {
                Some(bits) => self.ctx().vars.contains_key(name@) && bits == self.ctx().vars[name@],
                None => !self.ctx().vars.contains_key(name@),
            },
    {
        match self.variables.get(name) {
            Some(bits) => Some(*bits),
            None => None,
        }
    }

    /// Whether trigonometric built-ins read their argument in radians.
    pub fn uses_radians(&self) -> (r: bool)
        ensures
            r == self.ctx().radians,
    {
        self.use_radians
    }

    /// Switches between radians and degrees for trigonometric built-ins.
    pub fn set_use_radians(&mut self, radians: bool)
        ensures
            final(self).ctx().vars == old(self).ctx().vars,
            final(self).ctx().funcs == old(self).ctx().funcs,
            final(self).ctx().radians == radians,
            final(self).spec_prev_answer() == old(self).spec_prev_answer(),
            old(self).wf() ==> final(self).wf(),
    {
        self.use_radians = radians;
    }
}

/// Variable resolution: every variable reference is replaced by the stored
/// value, left to right; the first unknown name is the error.
pub open spec fn spec_resolve(vars: Map<Seq<u8>, u64>, s: Seq<TokV>) -> Result<Seq<TokV>, ErrV>
    decreases s.len(),
{
    if s.len() == 0 {
        Ok(Seq::empty())
    } else {
        let head = match s[0] {
            TokV::Variable(name) => {
                if vars.contains_key(name) {
                    Ok(TokV::Number(NumV::Bits(vars[name])))
                } else {
                    Err(ErrV::VarDoesNotExist(name))
                }
            },
            t => Ok(t),
        };
        match head {
            Err(e) => Err(e),
            Ok(h) => match spec_resolve(vars, s.subrange(1, s.len() as int)) {
                Err(e) => Err(e),
                Ok(rest) => Ok(seq![h] + rest),
            },
        }
    }
}

/// Resolution maps tokens pointwise: a variable becomes its stored value,
/// everything else stays.
pub proof fn lemma_resolve_shape(vars: Map<Seq<u8>, u64>, s: Seq<TokV>)
    ensures
        spec_resolve(vars, s) is Ok ==> spec_resolve(vars, s)->Ok_0.len() == s.len(),
        spec_resolve(vars, s) is Ok ==> forall|m: int|
            0 <= m < s.len() ==> #[trigger] spec_resolve(vars, s)->Ok_0[m] == (match s[m] {
                TokV::Variable(nm) => TokV::Number(NumV::Bits(vars[nm])),
                t => t,
            }),
    decreases s.len(),
{
    if s.len() == 0 {
    } else {
        let tail = s.subrange(1, s.len() as int);
        lemma_resolve_shape(vars, tail);
        if spec_resolve(vars, s) is Ok {
            let rest = spec_resolve(vars, tail)->Ok_0;
            assert forall|m: int| 0 <= m < s.len() implies #[trigger] spec_resolve(
                vars,
                s,
            )->Ok_0[m] == (match s[m] {
                TokV::Variable(nm) => TokV::Number(NumV::Bits(vars[nm])),
                t => t,
            }) by {
                if m > 0 {
                    assert(spec_resolve(vars, s)->Ok_0[m] == rest[m - 1]);
                    assert(tail[m - 1] == s[m]);
                }
            }
        }
    }
}

impl Calculator {
    /// Replaces every variable reference by its stored value, or fails on
    /// the first unknown name.
    pub fn resolve_variables(&self, tokens: Vec<Token>) -> (r: Result<Vec<Token>, CalcError>)
        ensures
            crate::error::result_dv(r) == spec_resolve(self.ctx().vars, tokens.deep_view()),
    {
        let ghost s = tokens.deep_view();
        let ghost vars = self.ctx().vars;
        let n: usize = tokens.len();
        let mut out: Vec<Token> = Vec::new();
        proof {
            assert(s.subrange(0, n as int) =~= s);
            assert(out.deep_view() =~= Seq::<TokV>::empty());
            assert(forall|rest: Seq<TokV>| Seq::<TokV>::empty() + rest =~= rest);
            if spec_resolve(vars, s) is Ok {
                let rest = spec_resolve(vars, s)->Ok_0;
                assert(Seq::<TokV>::empty() + rest =~= rest);
            }
        }
        let mut i: usize = 0;
        while i < n
            invariant
                i <= n == s.len(),
                tokens.deep_view() == s,
                self.ctx().vars == vars,
                spec_resolve(vars, s) == match spec_resolve(vars, s.subrange(i as int, n as int)) {
                    Ok(rest) => Ok::<Seq<TokV>, ErrV>(out.deep_view() + rest),
                    Err(e) => Err::<Seq<TokV>, ErrV>(e),
                },
            decreases n - i,
        {
            let ghost tail = s.subrange(i as int, n as int);
            proof {
                assert(tail.len() > 0);
                assert(tail[0] == s[i as int]);
                assert(tail.subrange(1, tail.len() as int) =~= s.subrange(i + 1, n as int));
            }
            let t = match &tokens[i] {
                Token::Variable(name) => {
                    match self.variables.get(name) {
                        Some(bits) => Token::Number(crate::token::Num::Bits(*bits)),
                        None => {
                            proof {
                                assert(spec_resolve(vars, tail) == Err::<Seq<TokV>, ErrV>(
                                    ErrV::VarDoesNotExist(name.deep_view()),
                                ));
                            }
                            return Err(CalcError::VarDoesNotExist(clone_bytes(name)));
                        },
                    }
                },
                t => crate::token::clone_token(t),
            };
            let ghost prev_dv = out.deep_view();
            let ghost tv = t.deep_view();
            out.push(t);
            proof {
                assert(out.deep_view() =~= prev_dv.push(tv));
                assert forall|rest: Seq<TokV>|
                    prev_dv + (seq![tv] + rest) == out.deep_view() + rest by {
                    assert(prev_dv + (seq![tv] + rest) =~= out.deep_view() + rest);
                }
            }
            i = i + 1;
        }
        proof {
            assert(s.subrange(n as int, n as int) =~= Seq::<TokV>::empty());
            assert(out.deep_view() + Seq::<TokV>::empty() =~= out.deep_view());
        }
        Ok(out)
    }
}

/// The two kinds of successful evaluation: a numeric answer, or feedback
/// text about a definition.
#[derive(Debug)]
pub enum EvalResult<A, F> {
    Answer(A),
    Feedback(F),
}

/// What a successful evaluation asks of the embedding program: execute the
/// plan and commit the value (with [`Calculator::record_answer`] or
/// [`Calculator::store_var`]), or nothing at all for a finished function
/// definition.
#[derive(Debug)]
pub enum Pending {
    /// A plain expression: execute the plan, then record the answer.
    Answer { plan: Vec<crate::plan::Step>, result: crate::token::Num },
    /// A variable definition: execute the plan, then store the value.
    AssignVar { name: Vec<u8>, plan: Vec<crate::plan::Step>, result: crate::token::Num },
    /// A function definition, already committed to the function table.
    CreatedFunction,
}

/// Spec-level counterpart of what an evaluation produces.
pub enum EvalOutcomeV {
    Answer { plan: Seq<crate::plan::StepV>, result: NumV },
    AssignVar { name: Seq<u8>, plan: Seq<crate::plan::StepV>, result: NumV },
    Defined { func: FuncV },
}

/// A byte of ASCII whitespace, as the whitespace strip removes it.
pub open spec fn is_ascii_ws(b: u8) -> bool {
    b == 32 || (9 <= b && b <= 13)
}

/// The input with all whitespace bytes removed.
pub open spec fn spec_strip(s: Seq<u8>) -> Seq<u8>
    decreases s.len(),
{
    if s.len() == 0 {
        Seq::empty()
    } else {
        spec_strip(s.drop_last()) + if is_ascii_ws(s.last()) {
            Seq::empty()
        } else {
            seq![s.last()]
        }
    }
}

/// Exec counterpart of [`spec_strip`].
fn strip_whitespace(input: &Vec<u8>) -> (r: Vec<u8>)
    ensures
        r@ == spec_strip(input@),
{
    let ghost s = input@;
    let n: usize = input.len();
    let mut r: Vec<u8> = Vec::new();
    let mut i: usize = 0;
    while i < n
        invariant
            i <= n == s.len(),
            input@ == s,
            r@ == spec_strip(s.subrange(0, i as int)),
        decreases n - i,
    {
        proof {
            assert(s.subrange(0, i + 1).drop_last() =~= s.subrange(0, i as int));
            assert(s.subrange(0, i + 1).last() == s[i as int]);
        }
        let b = input[i];
        if !(b == 32 || (9 <= b && b <= 13)) {
            r.push(b);
            proof {
                assert(r@ =~= spec_strip(s.subrange(0, i as int)) + seq![s[i as int]]);
            }
        } else {
            proof {
                assert(spec_strip(s.subrange(0, i as int)) + Seq::<u8>::empty() =~= spec_strip(
                    s.subrange(0, i as int),
                ));
            }
        }
        i = i + 1;
    }
    proof {
        assert(s.subrange(0, n as int) =~= s);
    }
    r
}

/// The position of the leftmost assignment token at or after `i`.
pub open spec fn find_assign(s: Seq<TokV>, i: int) -> Option<int>
    decreases s.len() - i,
{
    if i < 0 || i >= s.len() {
        None
    } else if s[i] is Assignment {
        Some(i)
    } else {
        find_assign(s, i + 1)
    }
}

/// Exec counterpart of [`find_assign`], from position 0.
fn find_assign_exec(tokens: &Vec<Token>) -> (r: Option<usize>)
    ensures
        match r {
            Some(k) => find_assign(tokens.deep_view(), 0) == Some(k as int) && k
                < tokens.deep_view().len() && tokens.deep_view()[k as int] is Assignment,
            None => find_assign(tokens.deep_view(), 0) is None,
        },
{
    let ghost s = tokens.deep_view();
    let n: usize = tokens.len();
    let mut i: usize = 0;
    while i < n
        invariant
            i <= n == s.len(),
            tokens.deep_view() == s,
            find_assign(s, 0) == find_assign(s, i as int),
        decreases n - i,
    {
        if matches!(&tokens[i], Token::Assignment) {
            proof {
                assert(find_assign(s, i as int) == Some(i as int));
            }
            return Some(i);
        }
        proof {
            assert(find_assign(s, i as int) == find_assign(s, i + 1));
        }
        i = i + 1;
    }
    proof {
        assert(find_assign(s, n as int) is None);
    }
    None
}

/// One whole evaluation, as a function of the state and the input line:
/// whitespace strip, lexing, validation, then dispatch on the assignment
/// token - plain evaluation, variable definition, or function definition.
pub open spec fn spec_eval(ctx: CtxV, input: Seq<u8>) -> Result<EvalOutcomeV, ErrV> {
    let stripped = spec_strip(input);
    match crate::token::spec_tokenize(stripped) {
        Err(e) => Err(e),
        Ok(tokens) => {
            if crate::validate::spec_validate(tokens) is Some {
                Err(crate::validate::spec_validate(tokens).unwrap())
            } else {
                match find_assign(tokens, 0) {
                    Some(k) => {
                        let lhs = tokens.subrange(0, k);
                        let rhs = tokens.subrange(k + 1, tokens.len() as int);
                        if lhs.len() == 1 {
                            if lhs[0] is Variable {
                                match spec_resolve(ctx.vars, rhs) {
                                    Err(e) => Err(e),
                                    Ok(resolved) => match crate::solve::spec_solve(
                                        ctx.funcs,
                                        ctx.radians,
                                        resolved,
                                        0,
                                        Seq::empty(),
                                    ) {
                                        Err(e) => Err(e),
                                        Ok((res, plan)) => {
                                            if res.len() == 1 && res[0] is Number {
                                                Ok(
                                                    EvalOutcomeV::AssignVar {
                                                        name: lhs[0]->Variable_0,
                                                        plan,
                                                        result: res[0]->Number_0,
                                                    },
                                                )
                                            } else {
                                                Err(ErrV::FailedToSolveEquation)
                                            }
                                        },
                                    },
                                }
                            } else {
                                Err(ErrV::LhsMustBeVarOrFunc)
                            }
                        } else {
                            match crate::validate::spec_valid_lhs(lhs) {
                                Some(e) => Err(e),
                                None => match crate::math_function::spec_create(
                                    ctx.vars,
                                    lhs,
                                    rhs,
                                ) {
                                    Err(e) => Err(e),
                                    Ok(f) => Ok(EvalOutcomeV::Defined { func: f }),
                                },
                            }
                        }
                    },
                    None => {
                        match spec_resolve(ctx.vars, tokens) {
                            Err(e) => Err(e),
                            Ok(resolved) => match crate::solve::spec_solve(
                                ctx.funcs,
                                ctx.radians,
                                resolved,
                                0,
                                Seq::empty(),
                            ) {
                                Err(e) => Err(e),
                                Ok((res, plan)) => {
                                    if res.len() == 1 && res[0] is Number {
                                        Ok(EvalOutcomeV::Answer { plan, result: res[0]->Number_0 })
                                    } else {
                                        Err(ErrV::FailedToSolveEquation)
                                    }
                                },
                            },
                        }
                    },
                }
            }
        },
    }
}

impl Calculator {
    /// Evaluates one line of input against the current state.
    ///
    /// All lexing, validation, dispatch and reduction happens here, and
    /// every error is raised here; what remains for the embedding program
    /// is pure arithmetic: execute the returned plan and commit the value.
    /// A function definition mutates the function table directly (no
    /// arithmetic is needed); nothing else mutates the state.
    #[verifier::rlimit(100)]
    pub fn eval(&mut self, input: &Vec<u8>) -> (r: Result<Pending, CalcError>)
        requires
            old(self).wf(),
        ensures
            final(self).wf(),
            final(self).spec_prev_answer() == old(self).spec_prev_answer(),
            final(self).ctx().vars == old(self).ctx().vars,
            final(self).ctx().radians == old(self).ctx().radians,
            match r {
                Ok(p) => match p {
                    Pending::Answer { plan, result } => spec_eval(old(self).ctx(), input@) == Ok::<
                        EvalOutcomeV,
                        ErrV,
                    >(EvalOutcomeV::Answer { plan: plan.deep_view(), result: result.deep_view() })
                        && crate::plan::plan_wf(plan.deep_view()) && crate::plan::num_wf(
                        result.deep_view(),
                        plan@.len() as int,
                    ) && final(self).ctx().funcs == old(self).ctx().funcs,
                    Pending::AssignVar { name, plan, result } => spec_eval(old(self).ctx(), input@)
                        == Ok::<EvalOutcomeV, ErrV>(
                        EvalOutcomeV::AssignVar {
                            name: name@,
                            plan: plan.deep_view(),
                            result: result.deep_view(),
                        },
                    ) && crate::plan::plan_wf(plan.deep_view()) && crate::plan::num_wf(
                        result.deep_view(),
                        plan@.len() as int,
                    ) && final(self).ctx().funcs == old(self).ctx().funcs,
                    Pending::CreatedFunction => match spec_eval(old(self).ctx(), input@) {
                        Ok(EvalOutcomeV::Defined { func }) => final(self).ctx().funcs == old(
                            self,
                        ).ctx().funcs.insert(func.name, func),
                        _ => false,
                    },
                },
                Err(e) => spec_eval(old(self).ctx(), input@) == Err::<EvalOutcomeV, ErrV>(
                    e.deep_view(),
                ) && final(self).ctx().funcs == old(self).ctx().funcs,
            },
    {
        let ghost ctx0 = self.ctx();
        let stripped = strip_whitespace(input);
        let tokens = match crate::token::tokenize(&stripped) {
            Ok(t) => t,
            Err(e) => {
                return Err(e);
            },
        };
        let ghost toks_dv = tokens.deep_view();
        proof {
            crate::token::lemma_tokenize_shape(stripped@);
            assert(crate::token::lex_shape(toks_dv));
        }
        match crate::validate::validate_token_list(&tokens) {
            Ok(_) => {},
            Err(e) => {
                return Err(e);
            },
        }
        match find_assign_exec(&tokens) {
            Some(k) => {
                let n: usize = tokens.len();
                proof {
                    assert(!crate::validate::bad_first(toks_dv[0]));
                    assert(k as int >= 1) by {
                        if k == 0 {
                            assert(toks_dv[0] is Assignment);
                        }
                    }
                }
                let lhs = crate::solve::subtokens(&tokens, 0, k);
                let rhs = crate::solve::subtokens(&tokens, k + 1, n);
                let ghost lhs_dv = lhs.deep_view();
                let ghost rhs_dv = rhs.deep_view();
                if lhs.len() == 1 {
                    let is_var = matches!(&lhs[0], Token::Variable(_));
                    if is_var {
                        let name = match &lhs[0] {
                            Token::Variable(nm) => clone_bytes(nm),
                            _ => {
                                proof {
                                    assert(false);
                                }
                                Vec::new()
                            },
                        };
                        let resolved = match self.resolve_variables(rhs) {
                            Ok(v) => v,
                            Err(e) => {
                                return Err(e);
                            },
                        };
                        let ghost res_dv = resolved.deep_view();
                        proof {
                            lemma_resolve_shape(ctx0.vars, rhs_dv);
                            assert(crate::plan::seq_num_wf(res_dv, 0)) by {
                                assert forall|m: int|
                                    0 <= m < res_dv.len() implies match #[trigger] res_dv[m] {
                                    TokV::Number(nn) => crate::plan::num_wf(nn, 0),
                                    _ => true,
                                } by {
                                    assert(rhs_dv[m] == toks_dv[m + k + 1]);
                                }
                            }
                        }
                        let mut plan: Vec<crate::plan::Step> = Vec::new();
                        proof {
                            assert(plan.deep_view() =~= Seq::<crate::plan::StepV>::empty());
                        }
                        match self.solve(resolved, 0, &mut plan) {
                            Err(e) => Err(e),
                            Ok(res) => {
                                if res.len() == 1 {
                                    match &res[0] {
                                        Token::Number(m) => {
                                            let result = clone_num(m);
                                            proof {
                                                assert(res.deep_view()[0] == TokV::Number(
                                                    result.deep_view(),
                                                ));
                                            }
                                            Ok(Pending::AssignVar { name, plan, result })
                                        },
                                        _ => Err(CalcError::FailedToSolveEquation),
                                    }
                                } else {
                                    Err(CalcError::FailedToSolveEquation)
                                }
                            },
                        }
                    } else {
                        Err(CalcError::LhsMustBeVarOrFunc)
                    }
                } else {
                    match crate::validate::is_valid_lhs_function(&lhs) {
                        Err(e) => {
                            return Err(e);
                        },
                        Ok(_) => {},
                    }
                    proof {
                        assert forall|m: int|
                            0 <= m < rhs_dv.len() implies !(#[trigger] rhs_dv[m] is FunctionArg)
                            && (rhs_dv[m] is Number ==> !(rhs_dv[m]->Number_0 is Ref)) by {
                            assert(rhs_dv[m] == toks_dv[m + k + 1]);
                        }
                    }
                    match self.create_function(&lhs, rhs) {
                        Err(e) => Err(e),
                        Ok(func) => {
                            let ghost fv = func.deep_view();
                            let name2 = clone_bytes(&func.name);
                            self.functions.insert(name2, func);
                            proof {
                                assert(self.wf()) by {
                                    assert forall|k2: Seq<u8>|
                                        self.functions@.contains_key(k2) implies func_wf(
                                        #[trigger] self.functions@[k2],
                                    ) by {
                                        if k2 != fv.name {
                                            assert(old(self).functions@.contains_key(k2));
                                        }
                                    }
                                }
                            }
                            Ok(Pending::CreatedFunction)
                        },
                    }
                }
            },
            None => {
                let resolved = match self.resolve_variables(tokens) {
                    Ok(v) => v,
                    Err(e) => {
                        return Err(e);
                    },
                };
                let ghost res_dv = resolved.deep_view();
                proof {
                    lemma_resolve_shape(ctx0.vars, toks_dv);
                    assert(crate::plan::seq_num_wf(res_dv, 0)) by {
                        assert forall|m: int|
                            0 <= m < res_dv.len() implies match #[trigger] res_dv[m] {
                            TokV::Number(nn) => crate::plan::num_wf(nn, 0),
                            _ => true,
                        } by {
                            assert(match toks_dv[m] {
                                TokV::FunctionArg(_) => false,
                                TokV::Number(nx) => nx is Lit,
                                _ => true,
                            });
                        }
                    }
                }
                let mut plan: Vec<crate::plan::Step> = Vec::new();
                proof {
                    assert(plan.deep_view() =~= Seq::<crate::plan::StepV>::empty());
                }
                match self.solve(resolved, 0, &mut plan) {
                    Err(e) => Err(e),
                    Ok(res) => {
                        if res.len() == 1 {
                            match &res[0] {
                                Token::Number(m) => {
                                    let result = clone_num(m);
                                    proof {
                                        assert(res.deep_view()[0] == TokV::Number(
                                            result.deep_view(),
                                        ));
                                    }
                                    Ok(Pending::Answer { plan, result })
                                },
                                _ => Err(CalcError::FailedToSolveEquation),
                            }
                        } else {
                            Err(CalcError::FailedToSolveEquation)
                        }
                    },
                }
            },
        }
    }
}

} // verus!
