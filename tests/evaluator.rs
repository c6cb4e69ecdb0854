use minilisp::{eval, BinOp, Env, EvaluatorError, Object, Order};

fn literal(w: &str) -> Option<u64> {
    w.parse::<f64>().ok().map(f64::to_bits)
}

fn arith(op: BinOp, x: u64, y: u64) -> u64 {
    let (a, b) = (f64::from_bits(x), f64::from_bits(y));
    let r = match op {
        BinOp::Add => a + b,
        BinOp::Sub => a - b,
        BinOp::Mul => a * b,
        _ => a / b,
    };
    r.to_bits()
}

fn order(x: u64, y: u64) -> Order {
    match f64::from_bits(x).partial_cmp(&f64::from_bits(y)) {
        Some(std::cmp::Ordering::Less) => Order::Less,
        Some(std::cmp::Ordering::Equal) => Order::Equal,
        Some(std::cmp::Ordering::Greater) => Order::Greater,
        None => Order::Unordered,
    }
}

fn run(code: &str, env: &mut Env) -> Result<Object, EvaluatorError> {
    eval(code, env, &literal, &arith, &order)
}

fn num(n: f64) -> Object {
    Object::Number(n.to_bits())
}

#[test]
fn test_add() {
    let mut env = Env::new();
    let result = run("(+ 1 2)", &mut env).unwrap();
    assert_eq!(result, num(3.0));
}

#[test]
fn test_area_of_a_circle() {
    let mut env = Env::new();
    let program = "(
                    (define r 10)
                    (define pi 314)
                    (* pi (* r r))
                  )";
    let result = run(program, &mut env).unwrap();
    assert_eq!(result, Object::List(vec![num((314.0 * 10.0 * 10.0) as f64)]));
}

#[test]
fn test_sqr_function() {
    let mut env = Env::new();
    let program = "(
                    (define sqr (lambda (r) (* r r)))
                    (sqr 10)
                   )";
    let result = run(program, &mut env).unwrap();
    assert_eq!(result, Object::List(vec![num((10.0 * 10.0) as f64)]));
}

#[test]
fn test_is_borrowed() {
    let mut env = Env::new();
    let program = "(
                    (define doo (lambda (x y z) (+ (+ x y) z)))
                    (doo 10 20 30)
                    )";
    let result = run(program, &mut env).unwrap();
    assert_eq!(result, Object::List(vec![num(10.0 + 20.0 + 30.0 as f64)]));
}

#[test]
fn unbound_symbol_is_an_error() {
    let mut env = Env::new();
    assert_eq!(
        run("(+ x 1)", &mut env),
        Err(EvaluatorError::UnboundSymbol("x".to_string()))
    );
}

#[test]
fn if_with_number_condition_is_type_mismatch() {
    let mut env = Env::new();
    assert_eq!(
        run("(if 1 2 3)", &mut env),
        Err(EvaluatorError::TypeMismatch("if".to_string()))
    );
}

#[test]
fn if_takes_one_branch_only() {
    let mut env = Env::new();
    assert_eq!(run("(if (< 1 2) 10 y)", &mut env), Ok(num(10.0)));
    assert_eq!(run("(if (> 1 2) y 20)", &mut env), Ok(num(20.0)));
}

#[test]
fn division_by_zero_is_infinity() {
    let mut env = Env::new();
    assert_eq!(run("(/ 1 0)", &mut env), Ok(num(f64::INFINITY)));
}

#[test]
fn comparisons_give_booleans() {
    let mut env = Env::new();
    assert_eq!(run("(< 1 2)", &mut env), Ok(Object::Bool(true)));
    assert_eq!(run("(> 1 2)", &mut env), Ok(Object::Bool(false)));
    assert_eq!(run("(= 2 2)", &mut env), Ok(Object::Bool(true)));
    assert_eq!(run("(!= 2 2)", &mut env), Ok(Object::Bool(false)));
    assert_eq!(run("(- 7 2)", &mut env), Ok(num(5.0)));
}

#[test]
fn binary_operator_needs_two_operands() {
    let mut env = Env::new();
    assert_eq!(
        run("(+ 1 2 3)", &mut env),
        Err(EvaluatorError::ArityMismatch("+".to_string()))
    );
}

#[test]
fn binary_operator_needs_numbers() {
    let mut env = Env::new();
    assert_eq!(
        run("(+ 1 (< 1 2))", &mut env),
        Err(EvaluatorError::TypeMismatch("+".to_string()))
    );
}

#[test]
fn define_needs_a_symbol() {
    let mut env = Env::new();
    assert_eq!(
        run("(define 1 2)", &mut env),
        Err(EvaluatorError::MalformedForm("define".to_string()))
    );
}

#[test]
fn lambda_needs_symbol_parameters() {
    let mut env = Env::new();
    assert_eq!(
        run("(lambda (1) (+ 1 1))", &mut env),
        Err(EvaluatorError::MalformedForm("lambda".to_string()))
    );
}

#[test]
fn call_of_unknown_name() {
    let mut env = Env::new();
    assert_eq!(
        run("(nope 1)", &mut env),
        Err(EvaluatorError::UndefinedFunction("nope".to_string()))
    );
}

#[test]
fn call_of_a_number() {
    let mut env = Env::new();
    assert_eq!(
        run("((define k 1) (k 2))", &mut env),
        Err(EvaluatorError::NotCallable("k".to_string()))
    );
}

#[test]
fn call_with_too_few_arguments() {
    let mut env = Env::new();
    assert_eq!(
        run("((define f (lambda (a b) (+ a b))) (f 1))", &mut env),
        Err(EvaluatorError::ArityMismatch("f".to_string()))
    );
}

#[test]
fn parse_error_is_wrapped() {
    let mut env = Env::new();
    assert!(matches!(run("+ 1 2", &mut env), Err(EvaluatorError::Parse(_))));
}

#[test]
fn bare_procedure_value_is_void() {
    let mut env = Env::new();
    let f = Object::Function(vec!["x".to_string()], vec![Object::Symbol("x".to_string())]);
    let r = minilisp::eval_obj(&f, &mut env, 10, &arith, &order);
    assert_eq!(r, Ok(Object::Void));
}

#[test]
fn define_in_call_frame_is_discarded() {
    let mut env = Env::new();
    let program = "(
                    (define x 1)
                    (define f (lambda (a) (define x a)))
                    (f 5)
                    x
                   )";
    let result = run(program, &mut env).unwrap();
    assert_eq!(result, Object::List(vec![num(1.0)]));
    assert_eq!(env.get("x"), Some(num(1.0)));
    assert_eq!(env.depth(), 1);
}

#[test]
fn define_in_argument_reaches_caller_frame() {
    let mut env = Env::new();
    let program = "(
                    (define f (lambda (a) (+ a 1)))
                    (f (define y 7))
                   )";
    // the argument evaluates to nothing, so the body fails on it; the
    // binding made while evaluating it stays in the caller's frame
    assert!(run(program, &mut env).is_err());
    assert_eq!(env.get("y"), Some(num(7.0)));
}

#[test]
fn body_sees_caller_bindings() {
    let mut env = Env::new();
    let program = "(
                    (define k 3)
                    (define addk (lambda (a) (+ a k)))
                    (addk 4)
                   )";
    assert_eq!(run(program, &mut env), Ok(Object::List(vec![num(7.0)])));
}

#[test]
fn multi_form_body_gives_group() {
    let mut env = Env::new();
    let program = "(
                    (define g (lambda (a) ((+ a 1) (+ a 2))))
                    (g 1)
                   )";
    assert_eq!(
        run(program, &mut env),
        Ok(Object::List(vec![Object::List(vec![num(2.0), num(3.0)])]))
    );
}

#[test]
fn definitions_persist_after_an_error() {
    let mut env = Env::new();
    assert!(run("((define a 1) (+ a b))", &mut env).is_err());
    assert_eq!(run("(+ a 1)", &mut env), Ok(num(2.0)));
}

#[test]
fn empty_group_is_empty() {
    let mut env = Env::new();
    assert_eq!(run("()", &mut env), Ok(Object::List(vec![])));
}

#[test]
fn every_argument_is_evaluated() {
    let mut env = Env::new();
    let program = "(
                    (define f (lambda (a) (+ a z)))
                    (f 1 (define z 5))
                   )";
    assert_eq!(run(program, &mut env), Ok(Object::List(vec![num(6.0)])));
}

#[test]
fn unbound_extra_argument_is_an_error() {
    let mut env = Env::new();
    let program = "(
                    (define f (lambda (a) (+ a 0)))
                    (f 1 w)
                   )";
    assert_eq!(
        run(program, &mut env),
        Err(EvaluatorError::UnboundSymbol("w".to_string()))
    );
}

#[test]
fn unclosed_group_is_a_parse_error() {
    let mut env = Env::new();
    assert!(matches!(run("(+ 1 2", &mut env), Err(EvaluatorError::Parse(_))));
}
