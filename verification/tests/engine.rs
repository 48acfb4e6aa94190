//! Reader and evaluator scenarios: bracket handling, quote sugar,
//! arithmetic, closures, recursion, scoping, and the error taxonomy.

use rselisp::{EvalError, Inner, Lsp, SyntaxError, TypeMismatch};

fn read_eval(lsp: &mut Lsp, src: &str) -> Result<Inner, EvalError> {
    let ast = lsp.read(&src.to_owned()).expect("read failed");
    lsp.eval(&ast)
}

fn as_int(v: &Inner) -> Option<i32> {
    match v {
        Inner::Int(i) => Some(*i),
        _ => None,
    }
}

fn is_t(v: &Inner) -> bool {
    matches!(v, Inner::Sym(s) if s == "t")
}

fn is_nil_value(v: &Inner) -> bool {
    match v {
        Inner::Sym(s) => s == "nil",
        Inner::Sxp(s) => s.len() == 0,
        _ => false,
    }
}

#[test]
fn read_reports_dangling_opener() {
    let lsp = Lsp::new();
    let r = lsp.read(&"(+ 1 2".to_owned());
    assert_eq!(r.err(), Some(SyntaxError::UnmatchedOpener('(')));
}

#[test]
fn read_reports_extra_closer() {
    let lsp = Lsp::new();
    let r = lsp.read(&"(+ 1 2))".to_owned());
    assert_eq!(r.err(), Some(SyntaxError::ExtraCloser(')')));
}

#[test]
fn read_reports_delimiter_mismatch() {
    let lsp = Lsp::new();
    let r = lsp.read(&"(+ 1 2]".to_owned());
    assert_eq!(r.err(), Some(SyntaxError::Mismatch('(', ']')));
}

#[test]
fn read_reports_unterminated_string() {
    let lsp = Lsp::new();
    let r = lsp.read(&"\"abc".to_owned());
    assert_eq!(r.err(), Some(SyntaxError::UnterminatedString));
}

#[test]
fn read_reports_quoted_closer() {
    let lsp = Lsp::new();
    let r = lsp.read(&"(')".to_owned());
    assert_eq!(r.err(), Some(SyntaxError::QuotedCloser(')')));
}

#[test]
fn read_accepts_square_brackets() {
    let lsp = Lsp::new();
    assert!(lsp.read(&"[1 2 3]".to_owned()).is_ok());
}

#[test]
fn quote_sugar_equals_spelled_quote() {
    let mut lsp = Lsp::new();
    let sugared = read_eval(&mut lsp, "'(1 2 3)").expect("eval failed");
    let spelled = read_eval(&mut lsp, "(quote (1 2 3))").expect("eval failed");
    for v in [&sugared, &spelled] {
        match v {
            Inner::Sxp(s) => {
                assert_eq!(s.len(), 3);
                let mut got: Vec<i32> = Vec::new();
                for i in 0..3 {
                    got.push(as_int(s.get(i)).expect("non-integer element"));
                }
                assert_eq!(got, vec![1, 2, 3]);
            },
            _ => panic!("quote did not give a list"),
        }
    }
}

#[test]
fn addition_gives_three() {
    let mut lsp = Lsp::new();
    let v = read_eval(&mut lsp, "(+ 1 2)").expect("eval failed");
    assert_eq!(as_int(&v), Some(3));
}

#[test]
fn subtraction_folds_left() {
    let mut lsp = Lsp::new();
    let v = read_eval(&mut lsp, "(- 10 3 2)").expect("eval failed");
    assert_eq!(as_int(&v), Some(5));
}

#[test]
fn single_argument_minus_negates() {
    let mut lsp = Lsp::new();
    let v = read_eval(&mut lsp, "(- 7)").expect("eval failed");
    assert_eq!(as_int(&v), Some(-7));
}

#[test]
fn equality_of_equal_integers_is_truthy() {
    let mut lsp = Lsp::new();
    let v = read_eval(&mut lsp, "(eq 1 1)").expect("eval failed");
    assert!(is_t(&v));
}

#[test]
fn equality_of_unequal_integers_is_empty_list() {
    let mut lsp = Lsp::new();
    let v = read_eval(&mut lsp, "(eq 1 2)").expect("eval failed");
    assert!(is_nil_value(&v));
}

#[test]
fn fibonacci_by_recursive_closure() {
    let mut lsp = Lsp::new();
    let src = r#"
(fset 'fib
  '(lambda (a)
    (if (eq a 1)
        1
      (if (eq a 2)
          2
        (+ (fib (- a 1)) (fib (- a 2)))))))

(fib 20)
"#;
    let v = read_eval(&mut lsp, src).expect("eval failed");
    assert_eq!(as_int(&v), Some(10946));
    assert_eq!(lsp.local_depth(), 0);
}

#[test]
fn cons_cdr_round_trip_gives_empty_list() {
    let mut lsp = Lsp::new();
    let v = read_eval(&mut lsp, "(cdr (cons 5 '()))").expect("eval failed");
    assert!(is_nil_value(&v));
}

#[test]
fn car_of_cons_returns_head_unchanged() {
    let mut lsp = Lsp::new();
    let v = read_eval(&mut lsp, "(car (cons 5 '(1 2)))").expect("eval failed");
    assert_eq!(as_int(&v), Some(5));
    let w = read_eval(&mut lsp, "(car (cons 9 7))").expect("eval failed");
    assert_eq!(as_int(&w), Some(9));
}

#[test]
fn unbound_variable_is_reported_by_name() {
    let mut lsp = Lsp::new();
    let r = read_eval(&mut lsp, "(+ 1 undefined-name)");
    assert_eq!(
        r.err(),
        Some(EvalError::UnboundVariable("undefined-name".to_owned()))
    );
    // The failure leaves the namespaces usable and the local stack empty.
    assert_eq!(lsp.local_depth(), 0);
    let v = read_eval(&mut lsp, "(+ 1 2)").expect("eval failed");
    assert_eq!(as_int(&v), Some(3));
}

#[test]
fn unbound_function_is_reported_by_name() {
    let mut lsp = Lsp::new();
    let r = read_eval(&mut lsp, "(no-such-function 1)");
    assert_eq!(
        r.err(),
        Some(EvalError::UnboundFunction("no-such-function".to_owned()))
    );
}

#[test]
fn arity_failure_names_the_missing_parameter() {
    let mut lsp = Lsp::new();
    let depth_before = lsp.local_depth();
    let r = read_eval(&mut lsp, "((lambda (x) x))");
    match r {
        Err(EvalError::Arity(_, param)) => assert_eq!(param, "x"),
        other => panic!("expected an arity failure, got {:?}", other),
    }
    assert_eq!(lsp.local_depth(), depth_before);
}

#[test]
fn closure_call_binds_parameters_positionally() {
    let mut lsp = Lsp::new();
    let v = read_eval(&mut lsp, "((lambda (a b) (- a b)) 9 4)").expect("eval failed");
    assert_eq!(as_int(&v), Some(5));
}

#[test]
fn extra_closure_arguments_are_ignored() {
    let mut lsp = Lsp::new();
    let v = read_eval(&mut lsp, "((lambda (a) a) 1 2 3)").expect("eval failed");
    assert_eq!(as_int(&v), Some(1));
}

#[test]
fn if_takes_only_one_branch() {
    let mut lsp = Lsp::new();
    let v = read_eval(&mut lsp, "(if t 1 no-such-variable)").expect("eval failed");
    assert_eq!(as_int(&v), Some(1));
    let w = read_eval(&mut lsp, "(if nil no-such-variable 2)").expect("eval failed");
    assert_eq!(as_int(&w), Some(2));
}

#[test]
fn progn_returns_last_value() {
    let mut lsp = Lsp::new();
    let v = read_eval(&mut lsp, "(progn 1 2 3)").expect("eval failed");
    assert_eq!(as_int(&v), Some(3));
}

#[test]
fn exit_evaluates_to_the_exit_symbol() {
    let mut lsp = Lsp::new();
    let v = read_eval(&mut lsp, "(exit)").expect("eval failed");
    assert!(matches!(v, Inner::Sym(s) if s == "exit"));
}

#[test]
fn listp_tells_lists_from_atoms() {
    let mut lsp = Lsp::new();
    assert!(is_t(&read_eval(&mut lsp, "(listp '(1 2))").expect("eval failed")));
    assert!(is_nil_value(&read_eval(&mut lsp, "(listp 3)").expect("eval failed")));
}

#[test]
fn arithmetic_on_non_integer_is_a_type_failure() {
    let mut lsp = Lsp::new();
    let r = read_eval(&mut lsp, "(+ 1 \"x\")");
    assert_eq!(r.err(), Some(EvalError::Type(TypeMismatch::ExpectedInteger)));
}

#[test]
fn car_of_non_list_is_a_type_failure() {
    let mut lsp = Lsp::new();
    let r = read_eval(&mut lsp, "(car 5)");
    assert_eq!(r.err(), Some(EvalError::Type(TypeMismatch::ExpectedList)));
}

#[test]
fn integer_in_function_position_is_not_applicable() {
    let mut lsp = Lsp::new();
    let r = read_eval(&mut lsp, "(1 2)");
    assert_eq!(r.err(), Some(EvalError::Type(TypeMismatch::NotApplicable)));
}

#[test]
fn malformed_lambda_is_reported() {
    let mut lsp = Lsp::new();
    let r = read_eval(&mut lsp, "(lambda)");
    assert_eq!(r.err(), Some(EvalError::MalformedLambda));
    let r2 = read_eval(&mut lsp, "(lambda (1) 2)");
    assert_eq!(r2.err(), Some(EvalError::MalformedLambda));
}

#[test]
fn runaway_recursion_reports_exhausted_depth() {
    let mut lsp = Lsp::new();
    let src = r#"
(fset 'down '(lambda (a) (if (eq a 0) 0 (down (- a 1)))))
(down 2000)
"#;
    let r = read_eval(&mut lsp, src);
    assert_eq!(r.err(), Some(EvalError::DepthExceeded));
    assert_eq!(lsp.local_depth(), 0);
}

#[test]
fn numeric_atoms_take_priority_over_symbols() {
    let mut lsp = Lsp::new();
    let v = read_eval(&mut lsp, "'-25").expect("eval failed");
    assert_eq!(as_int(&v), Some(-25));
    // An overflowing numeral is not a number, so it is a symbol.
    let w = read_eval(&mut lsp, "'99999999999").expect("eval failed");
    assert!(matches!(w, Inner::Sym(s) if s == "99999999999"));
}

#[test]
fn empty_program_gives_empty_list() {
    let mut lsp = Lsp::new();
    let v = read_eval(&mut lsp, "").expect("eval failed");
    assert!(is_nil_value(&v));
}

#[test]
fn string_literals_evaluate_to_themselves() {
    let mut lsp = Lsp::new();
    let v = read_eval(&mut lsp, "\"hello world\"").expect("eval failed");
    assert!(matches!(v, Inner::Str(s) if s == "hello world"));
}

#[test]
fn fset_returns_the_bound_symbol() {
    let mut lsp = Lsp::new();
    let v = read_eval(&mut lsp, "(fset 'twice '(lambda (a) (+ a a)))").expect("eval failed");
    assert!(matches!(v, Inner::Sym(s) if s == "twice"));
    let w = read_eval(&mut lsp, "(twice 21)").expect("eval failed");
    assert_eq!(as_int(&w), Some(42));
}

#[test]
fn sibling_recursive_calls_do_not_leak_bindings() {
    let mut lsp = Lsp::new();
    // Each recursive call sees only its own `a`; the outer sum uses both
    // results, so a leaked frame would change the value.
    let src = r#"
(fset 'sum '(lambda (a) (if (eq a 0) 0 (+ a (sum (- a 1))))))
(+ (sum 3) (sum 4))
"#;
    let v = read_eval(&mut lsp, src).expect("eval failed");
    assert_eq!(as_int(&v), Some(16));
}

#[test]
fn builtins_report_missing_arguments() {
    let mut lsp = Lsp::new();
    assert_eq!(
        read_eval(&mut lsp, "(eq 1)").err(),
        Some(EvalError::MissingArgument)
    );
    assert_eq!(
        read_eval(&mut lsp, "(cons 1)").err(),
        Some(EvalError::MissingArgument)
    );
    assert_eq!(
        read_eval(&mut lsp, "(quote)").err(),
        Some(EvalError::MissingArgument)
    );
}

#[test]
fn binding_a_function_under_a_non_symbol_fails() {
    let mut lsp = Lsp::new();
    assert_eq!(
        read_eval(&mut lsp, "(fset 1 '(lambda (a) a))").err(),
        Some(EvalError::Type(TypeMismatch::ExpectedSymbol))
    );
}

#[test]
fn a_larger_budget_allows_deeper_recursion() {
    let mut lsp = Lsp::new();
    let setup = lsp
        .read(&"(fset 'down '(lambda (a) (if (eq a 0) 0 (down (- a 1)))))".to_owned())
        .expect("read failed");
    lsp.eval(&setup).expect("eval failed");
    let deep = lsp.read(&"(down 300)".to_owned()).expect("read failed");
    // Too deep for the default budget, fine under an explicit larger one.
    assert_eq!(lsp.eval(&deep).err(), Some(EvalError::DepthExceeded));
    let v = lsp.eval_sexp(&deep, 65536).expect("eval failed");
    assert!(matches!(v, Inner::Int(0)));
    assert_eq!(lsp.local_depth(), 0);
}
