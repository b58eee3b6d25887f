//! End-to-end tests: each line is evaluated by the library, and the
//! arithmetic plan it returns is executed here with ordinary f64 arithmetic.

use mathengine::engine::{Calculator, EvalResult, Pending};
use mathengine::error::CalcError;
use mathengine::plan::{BinOp, Builtin, Step};
use mathengine::token::{CharKind, Num, Token};

fn num_value(n: &Num, slots: &[f64]) -> f64 {
    match n {
        Num::Lit { digits, neg } => {
            let text = String::from_utf8(digits.clone()).unwrap();
            let v: f64 = text.parse().unwrap();
            if *neg {
                -v
            } else {
                v
            }
        }
        Num::Bits(b) => f64::from_bits(*b),
        Num::Ref(i) => slots[*i],
    }
}

fn run_plan(plan: &[Step], result: &Num) -> f64 {
    let mut slots: Vec<f64> = Vec::new();
    for step in plan {
        let v = match step {
            Step::Bin { op, a, b } => {
                let x = num_value(a, &slots);
                let y = num_value(b, &slots);
                match op {
                    BinOp::Add => x + y,
                    BinOp::Sub => x - y,
                    BinOp::Mul => x * y,
                    BinOp::Div => x / y,
                    BinOp::Mod => x % y,
                    BinOp::Pow => x.powf(y),
                    BinOp::And => ((x as i64) & (y as i64)) as f64,
                    BinOp::Or => ((x as i64) | (y as i64)) as f64,
                    BinOp::Xor => ((x as i64) ^ (y as i64)) as f64,
                    BinOp::Shl => ((x as i64) << (y as i64)) as f64,
                    BinOp::Shr => ((x as i64) >> (y as i64)) as f64,
                }
            }
            Step::Apply { f, arg, scale } => {
                let mut x = num_value(arg, &slots);
                if *scale {
                    x *= std::f64::consts::PI / 180.0;
                }
                match f {
                    Builtin::Sin => x.sin(),
                    Builtin::Cos => x.cos(),
                    Builtin::Tan => x.tan(),
                    Builtin::Asin => x.asin(),
                    Builtin::Acos => x.acos(),
                    Builtin::Atan => x.atan(),
                    Builtin::Sqrt => x.sqrt(),
                    Builtin::Log => x.log(10.0),
                    Builtin::Ln => x.log2(),
                }
            }
        };
        slots.push(v);
    }
    num_value(result, &slots)
}

fn eval_line(calc: &mut Calculator, line: &str) -> Result<EvalResult<f64, String>, CalcError> {
    let bytes: Vec<u8> = line.bytes().collect();
    match calc.eval(&bytes)? {
        Pending::Answer { plan, result } => {
            let v = run_plan(&plan, &result);
            calc.record_answer(v.to_bits());
            Ok(EvalResult::Answer(v))
        }
        Pending::AssignVar { name, plan, result } => {
            let v = run_plan(&plan, &result);
            calc.store_var(name, v.to_bits());
            Ok(EvalResult::Feedback("assigned value to variable".to_string()))
        }
        Pending::CreatedFunction => Ok(EvalResult::Feedback("created function".to_string())),
    }
}

fn answer(calc: &mut Calculator, line: &str) -> f64 {
    match eval_line(calc, line) {
        Ok(EvalResult::Answer(v)) => v,
        other => panic!("expected an answer for {:?}, got {:?}", line, other.map(|_| ())),
    }
}

fn error(calc: &mut Calculator, line: &str) -> CalcError {
    match eval_line(calc, line) {
        Err(e) => e,
        Ok(_) => panic!("expected an error for {:?}", line),
    }
}

#[test]
fn precedence_add_then_mul() {
    let mut calc = Calculator::new();
    assert_eq!(answer(&mut calc, "3+4*2"), 11.0);
}

#[test]
fn exponent_tier_is_left_associative() {
    let mut calc = Calculator::new();
    assert_eq!(answer(&mut calc, "2^3^2"), 64.0);
}

#[test]
fn sin_of_zero_in_radians() {
    let mut calc = Calculator::new();
    assert_eq!(answer(&mut calc, "sin(0)"), 0.0);
}

#[test]
fn modulo_by_zero_is_nan() {
    let mut calc = Calculator::new();
    assert!(answer(&mut calc, "5%0").is_nan());
}

#[test]
fn top_level_comma_is_misplaced() {
    let mut calc = Calculator::new();
    assert!(matches!(error(&mut calc, "1,2"), CalcError::MisplacedComma));
}

#[test]
fn variable_round_trip_and_overwrite() {
    let mut calc = Calculator::new();
    assert!(matches!(
        eval_line(&mut calc, "x=5"),
        Ok(EvalResult::Feedback(_))
    ));
    assert_eq!(answer(&mut calc, "x"), 5.0);
    assert!(matches!(
        eval_line(&mut calc, "x=7"),
        Ok(EvalResult::Feedback(_))
    ));
    assert_eq!(answer(&mut calc, "x"), 7.0);
}

#[test]
fn pure_expression_evaluates_identically_twice() {
    let mut calc = Calculator::new();
    let first = answer(&mut calc, "2+9*4");
    let second = answer(&mut calc, "2+9*4");
    assert_eq!(first, second);
}

#[test]
fn function_definition_freezes_outer_variables() {
    let mut calc = Calculator::new();
    eval_line(&mut calc, "a=2").unwrap();
    eval_line(&mut calc, "f(x)=x+a").unwrap();
    eval_line(&mut calc, "a=100").unwrap();
    assert_eq!(answer(&mut calc, "f(3)"), 5.0);
}

#[test]
fn zero_parameter_function_is_legal() {
    let mut calc = Calculator::new();
    eval_line(&mut calc, "f()=42").unwrap();
    assert_eq!(answer(&mut calc, "f()"), 42.0);
}

#[test]
fn wrong_argument_count_reports_declared_arity() {
    let mut calc = Calculator::new();
    eval_line(&mut calc, "g(x)=x*2").unwrap();
    match error(&mut calc, "g(1,2)") {
        CalcError::FuncIncorrectArgCount(n) => assert_eq!(n, 1),
        e => panic!("unexpected error {:?}", e),
    }
}

#[test]
fn nesting_past_the_depth_ceiling_fails() {
    let mut calc = Calculator::new();
    let mut line = String::new();
    for _ in 0..40 {
        line.push('(');
    }
    line.push('7');
    for _ in 0..40 {
        line.push(')');
    }
    assert!(matches!(
        error(&mut calc, &line),
        CalcError::TooMuchRecursion
    ));
}

#[test]
fn nesting_below_the_ceiling_succeeds() {
    let mut calc = Calculator::new();
    let mut line = String::new();
    for _ in 0..20 {
        line.push('(');
    }
    line.push('7');
    for _ in 0..20 {
        line.push(')');
    }
    assert_eq!(answer(&mut calc, &line), 7.0);
}

#[test]
fn unary_signs_fold_into_literals() {
    let mut calc = Calculator::new();
    assert_eq!(answer(&mut calc, "5*-3"), -15.0);
    assert_eq!(answer(&mut calc, "-5+3"), -2.0);
    assert_eq!(answer(&mut calc, "2--3"), 5.0);
    assert_eq!(answer(&mut calc, "+4"), 4.0);
}

#[test]
fn bitwise_operators() {
    let mut calc = Calculator::new();
    assert_eq!(answer(&mut calc, "6&3"), 2.0);
    assert_eq!(answer(&mut calc, "6|3"), 7.0);
    assert_eq!(answer(&mut calc, "2^^3"), 1.0);
    assert_eq!(answer(&mut calc, "1<<4"), 16.0);
    assert_eq!(answer(&mut calc, "32>>2"), 8.0);
}

#[test]
fn bitwise_tier_sits_between_mul_and_add() {
    let mut calc = Calculator::new();
    // multiplication binds before the bitwise AND, addition after it
    assert_eq!(answer(&mut calc, "2*3&7"), 6.0);
    assert_eq!(answer(&mut calc, "6&3+1"), 3.0);
}

#[test]
fn ans_holds_the_last_answer() {
    let mut calc = Calculator::new();
    assert_eq!(answer(&mut calc, "2+3"), 5.0);
    assert_eq!(answer(&mut calc, "ans*2"), 10.0);
}

#[test]
fn seeded_constants() {
    let mut calc = Calculator::new();
    assert_eq!(answer(&mut calc, "pi"), std::f64::consts::PI);
    assert_eq!(answer(&mut calc, "e"), std::f64::consts::E);
    assert_eq!(answer(&mut calc, "tau"), std::f64::consts::TAU);
}

#[test]
fn decimal_literals() {
    let mut calc = Calculator::new();
    assert_eq!(answer(&mut calc, "1.5+2.25"), 3.75);
    assert_eq!(answer(&mut calc, "7/2"), 3.5);
}

#[test]
fn whitespace_is_stripped() {
    let mut calc = Calculator::new();
    assert_eq!(answer(&mut calc, "  3 +\t4 "), 7.0);
}

#[test]
fn builtins_log_bases() {
    let mut calc = Calculator::new();
    assert_eq!(answer(&mut calc, "log(100)"), 2.0);
    // `ln` computes the base-2 logarithm, as the calculator always has
    assert_eq!(answer(&mut calc, "ln(8)"), 3.0);
    assert_eq!(answer(&mut calc, "sqrt(9)"), 3.0);
}

#[test]
fn degree_mode_scales_trigonometric_arguments() {
    let mut calc = Calculator::new();
    assert!(calc.uses_radians());
    calc.set_use_radians(false);
    assert!(!calc.uses_radians());
    assert!((answer(&mut calc, "sin(90)") - 1.0).abs() < 1e-12);
    assert!((answer(&mut calc, "cos(180)") + 1.0).abs() < 1e-12);
}

#[test]
fn multi_argument_functions_split_on_top_level_commas() {
    let mut calc = Calculator::new();
    eval_line(&mut calc, "plus(a,b)=a+b").unwrap();
    assert_eq!(answer(&mut calc, "plus(3,4)"), 7.0);
    assert_eq!(answer(&mut calc, "plus(plus(1,2),3)"), 6.0);
}

#[test]
fn lexical_errors() {
    let mut calc = Calculator::new();
    assert!(matches!(
        error(&mut calc, "1.2.3"),
        CalcError::CannotParseNumber(_)
    ));
    assert!(matches!(
        error(&mut calc, "2?3"),
        CalcError::CannotParseOperator(_)
    ));
    assert!(matches!(error(&mut calc, "2\u{00b2}"), CalcError::InvalidTokenSeq));
}

#[test]
fn structural_errors() {
    let mut calc = Calculator::new();
    assert!(matches!(error(&mut calc, ""), CalcError::NoInput));
    assert!(matches!(error(&mut calc, "   "), CalcError::NoInput));
    assert!(matches!(
        error(&mut calc, "x=3=4"),
        CalcError::TooManyAssignmentOps
    ));
    assert!(matches!(
        error(&mut calc, ")3"),
        CalcError::InvalidFirstToken(_)
    ));
    assert!(matches!(
        error(&mut calc, "3*"),
        CalcError::InvalidLastToken(_)
    ));
    assert!(matches!(error(&mut calc, "2**3"), CalcError::InvalidTokenSeq));
    assert!(matches!(
        error(&mut calc, "(2+3"),
        CalcError::ImbalancedBrackets
    ));
}

#[test]
fn semantic_errors() {
    let mut calc = Calculator::new();
    assert!(matches!(
        error(&mut calc, "nosuchvar"),
        CalcError::VarDoesNotExist(_)
    ));
    assert!(matches!(
        error(&mut calc, "nosuchfn(1)"),
        CalcError::FuncDoesNotExist(_)
    ));
    assert!(matches!(
        error(&mut calc, "3=4"),
        CalcError::LhsMustBeVarOrFunc
    ));
    assert!(matches!(
        error(&mut calc, "sin(x)=1"),
        CalcError::FuncHardcodedReassignAttempt(_)
    ));
    assert!(matches!(error(&mut calc, "(x)=3"), CalcError::FuncNoName));
    assert!(matches!(
        error(&mut calc, "f(2)=3"),
        CalcError::FuncExpectedArg
    ));
    assert!(matches!(
        error(&mut calc, "f(x+y)=3"),
        CalcError::FuncExpectedComma
    ));
}

#[test]
fn stalled_reductions_fail_to_solve() {
    let mut calc = Calculator::new();
    assert!(matches!(
        error(&mut calc, "()"),
        CalcError::FailedToSolveEquation
    ));
    assert!(matches!(
        error(&mut calc, "3+()"),
        CalcError::FailedToSolveEquation
    ));
}

#[test]
fn unknown_variable_leaves_state_unchanged() {
    let mut calc = Calculator::new();
    eval_line(&mut calc, "x=1").unwrap();
    assert!(matches!(
        error(&mut calc, "x=nosuchvar+1"),
        CalcError::VarDoesNotExist(_)
    ));
    assert_eq!(answer(&mut calc, "x"), 1.0);
}

#[test]
fn get_variable_returns_stored_bits() {
    let mut calc = Calculator::new();
    calc.store_var(b"y".to_vec(), (2.5f64).to_bits());
    assert_eq!(calc.get_variable(&b"y".to_vec()), Some((2.5f64).to_bits()));
    assert_eq!(calc.get_variable(&b"z".to_vec()), None);
}

#[test]
fn match_token_table() {
    assert!(matches!(
        mathengine::token::match_token(b"<<"),
        Some(Token::BitwiseLeftShift)
    ));
    assert!(matches!(
        mathengine::token::match_token(b"^^"),
        Some(Token::BitwiseXor)
    ));
    assert!(matches!(
        mathengine::token::match_token(b"^"),
        Some(Token::Exponentation)
    ));
    assert!(mathengine::token::match_token(b"?").is_none());
}

#[test]
fn token_bounds_cover_maximal_runs() {
    let input = b"12.5+abc";
    assert_eq!(
        mathengine::token::get_token_bounds(CharKind::NumberPart, 0, input),
        (0, 4)
    );
    assert_eq!(
        mathengine::token::get_token_bounds(CharKind::StringPart, 5, input),
        (5, 8)
    );
}

#[test]
fn matching_bracket_index_by_depth() {
    // the slice starts just after an opening bracket: ( 1 ) )
    let tokens = vec![
        Token::LeftBracket,
        Token::Number(Num::Bits(0)),
        Token::RightBracket,
        Token::RightBracket,
    ];
    assert_eq!(
        mathengine::solve::get_matching_bracket_index(&tokens),
        Some(3)
    );
    let unclosed = vec![Token::LeftBracket, Token::Number(Num::Bits(0))];
    assert_eq!(mathengine::solve::get_matching_bracket_index(&unclosed), None);
}

#[test]
fn validator_direct_calls() {
    let bytes: Vec<u8> = b"3+4".to_vec();
    let tokens = mathengine::token::tokenize(&bytes).unwrap();
    assert!(mathengine::validate::validate_token_list(&tokens).is_ok());

    let header = vec![Token::FunctionName(b"f".to_vec()), Token::LeftBracket];
    assert!(matches!(
        mathengine::validate::is_valid_lhs_function(&header),
        Err(CalcError::FuncArgsNotInBrackets)
    ));
}
