use oxlang::grammar::parse_program;
use oxlang::interpreter::{display_text, run_code, Interpreter, Step};
use oxlang::parser::{CompareOp, Op};
use oxlang::runtime::RuntimeVal;
use oxlang::visitor::{Action, EvalError, Event};

/// What a run printed and ran in the shell, and how it ended.
struct Outcome {
    out: Vec<String>,
    shell: Vec<String>,
    result: Result<(), EvalError>,
}

fn arith(op: Op, a: u64, b: u64) -> u64 {
    let (x, y) = (f64::from_bits(a), f64::from_bits(b));
    let r = match op {
        Op::Plus => x + y,
        Op::Minus => x - y,
        Op::Mult => x * y,
        Op::Div => x / y,
    };
    r.to_bits()
}

fn compare(op: CompareOp, a: u64, b: u64) -> bool {
    let (x, y) = (f64::from_bits(a), f64::from_bits(b));
    match op {
        CompareOp::Greater => x > y,
        CompareOp::Less => x < y,
        CompareOp::Equal => x == y,
        CompareOp::NotEqual => x != y,
        CompareOp::GreaterEqual => x >= y,
        CompareOp::LessEqual => x <= y,
    }
}

/// Drives a run to its end, reading lines from `input` and recording the
/// shell commands instead of running them.
fn drive(mut interp: Interpreter, input: &[&str]) -> Outcome {
    let mut lines = input.iter();
    let mut out = Vec::new();
    let mut shell = Vec::new();
    let mut step = interp.run();
    loop {
        let event = match step {
            Step::Finished(result) => return Outcome { out, shell, result },
            Step::Perform(Action::Print(v)) => {
                let text = match &v {
                    RuntimeVal::Num(n) => format!("{}", f64::from_bits(*n)),
                    other => display_text(other).unwrap(),
                };
                out.push(text);
                Event::Printed
            }
            Step::Perform(Action::ReadLine) => match lines.next() {
                Some(l) => Event::Line(l.to_string()),
                None => Event::Line(String::new()),
            },
            Step::Perform(Action::Shell(cmd)) => {
                shell.push(cmd);
                Event::Launched
            }
            Step::Perform(Action::Arith(op, a, b)) => Event::Number(arith(op, a, b)),
            Step::Perform(Action::CompareNumbers(op, a, b)) => Event::Truth(compare(op, a, b)),
        };
        step = interp.resume(event);
    }
}

fn run(code: &str, input: &[&str]) -> Outcome {
    drive(run_code(code).unwrap(), input)
}

#[test]
fn interpreter_test_interp_full() {
    let code = r#"
            print 23;
        "#;
    let o = run(code, &[]);
    assert_eq!(o.result, Ok(()));
    assert_eq!(o.out, vec!["23".to_string()]);
}

#[test]
fn test_interp_bash_code() {
    let code = r#"
            '"echo Bash code test success!"';
        "#;
    let o = run(code, &[]);
    assert_eq!(o.result, Ok(()));
    assert_eq!(o.shell, vec!["echo Bash code test success!".to_string()]);
    assert!(o.out.is_empty());
}

#[test]
fn test_interp_print_read() {
    let code = r#"
            print read;
        "#;
    let o = run(code, &["hi\n"]);
    assert_eq!(o.result, Ok(()));
    assert_eq!(o.out, vec!["hi\n".to_string()]);
}

#[test]
fn interpreter_test_interp_print() {
    assert!(run("print 23;", &[]).result.is_ok());
    assert!(run("print 23 * 42 + 56;", &[]).result.is_ok());
    assert!(run("print (23 + 42) * 56;", &[]).result.is_ok());
    let o = run("let x = 23; print x;", &[]);
    assert_eq!(o.result, Ok(()));
    assert_eq!(run("print 23 * 42 + 56;", &[]).out, vec!["1022".to_string()]);
    assert_eq!(run("print (23 + 42) * 56;", &[]).out, vec!["3640".to_string()]);
    assert_eq!(o.out, vec!["23".to_string()]);
}

#[test]
fn interpreter_test_interp_var_decl() {
    let interp = Interpreter::new(parse_program("let x = 23;").unwrap());
    assert_eq!(interp.run(), Step::Finished(Ok(())));
}

#[test]
fn print_literals_show_their_text() {
    assert_eq!(run("print \"Hello, world!\";", &[]).out, vec!["Hello, world!".to_string()]);
    assert_eq!(run("print true;", &[]).out, vec!["true".to_string()]);
    assert_eq!(run("print false;", &[]).out, vec!["false".to_string()]);
    assert_eq!(run("print 7;", &[]).out, vec!["7".to_string()]);
}

#[test]
fn first_step_of_print_literal() {
    let interp = run_code("print 7;").unwrap();
    assert_eq!(interp.run(), Step::Perform(Action::Print(RuntimeVal::Num(7.0f64.to_bits()))));
}

#[test]
fn assign_then_print_prints_once() {
    for n in ["0", "5", "123456", "9007199254740992"] {
        let o = run(&format!("let x = {}; print x;", n), &[]);
        assert_eq!(o.result, Ok(()));
        assert_eq!(o.out, vec![n.to_string()]);
    }
}

#[test]
fn if_less_prints_only_when_less() {
    assert_eq!(run("if 12 < 23 { print 23; }", &[]).out, vec!["23".to_string()]);
    assert!(run("if 23 < 12 { print 23; }", &[]).out.is_empty());
    assert!(run("if 12 < 12 { print 23; }", &[]).out.is_empty());
}

#[test]
fn if_asks_for_the_comparison_first() {
    let mut interp = run_code("if 1 < 2 { print 3; }").unwrap();
    assert_eq!(
        interp.run(),
        Step::Perform(Action::CompareNumbers(CompareOp::Less, 1.0f64.to_bits(), 2.0f64.to_bits()))
    );
    assert_eq!(interp.resume(Event::Truth(false)), Step::Finished(Ok(())));
}

#[test]
fn arithmetic_precedence() {
    assert_eq!(run("print 2 + 2 * 3;", &[]).out, vec!["8".to_string()]);
    assert_eq!(run("print (2 + 2) * 3;", &[]).out, vec!["12".to_string()]);
    assert_eq!(run("print 10 - 4 - 3;", &[]).out, vec!["3".to_string()]);
    assert_eq!(run("print 1 / 2;", &[]).out, vec!["0.5".to_string()]);
}

#[test]
fn division_by_zero_is_infinite() {
    assert_eq!(run("print 1 / 0;", &[]).out, vec!["inf".to_string()]);
    assert_eq!(run("print 0 / 0;", &[]).out, vec!["NaN".to_string()]);
}

#[test]
fn print_read_keeps_the_line_terminator() {
    let o = run("print read;", &["hi\n"]);
    assert_eq!(o.out.concat() + "\n", "hi\n\n");
}

#[test]
fn read_failure_is_an_io_error() {
    let mut interp = run_code("print read; '\"echo after\"';").unwrap();
    assert_eq!(interp.run(), Step::Perform(Action::ReadLine));
    assert_eq!(
        interp.resume(Event::IoError("closed".to_string())),
        Step::Finished(Err(EvalError::Io("closed".to_string())))
    );
}

#[test]
fn shell_launch_failure_is_an_io_error() {
    let mut interp = run_code("'\"true\"';").unwrap();
    assert_eq!(interp.run(), Step::Perform(Action::Shell("true".to_string())));
    assert_eq!(
        interp.resume(Event::IoError("no shell".to_string())),
        Step::Finished(Err(EvalError::Io("no shell".to_string())))
    );
}

#[test]
fn wrong_event_is_rejected() {
    let mut interp = run_code("print read;").unwrap();
    assert_eq!(interp.resume(Event::Printed), Step::Finished(Err(EvalError::UnexpectedEvent)));
}

#[test]
fn comparing_different_kinds_is_a_type_mismatch() {
    let o = run("print \"a\" == 1;", &[]);
    assert_eq!(o.result, Err(EvalError::TypeMismatch));
    assert!(o.out.is_empty());
    assert_eq!(run("print true == 1;", &[]).result, Err(EvalError::TypeMismatch));
}

#[test]
fn equality_only_on_booleans_and_strings() {
    assert_eq!(run("print \"a\" == \"a\";", &[]).out, vec!["true".to_string()]);
    assert_eq!(run("print \"a\" != \"a\";", &[]).out, vec!["false".to_string()]);
    assert_eq!(run("print true == false;", &[]).out, vec!["false".to_string()]);
    assert_eq!(run("print \"a\" < \"b\";", &[]).result, Err(EvalError::TypeMismatch));
    assert_eq!(run("print true < false;", &[]).result, Err(EvalError::TypeMismatch));
}

#[test]
fn number_comparisons() {
    assert_eq!(run("print 2 >= 2;", &[]).out, vec!["true".to_string()]);
    assert_eq!(run("print 2 > 2;", &[]).out, vec!["false".to_string()]);
    assert_eq!(run("print 0 / 0 == 0 / 0;", &[]).out, vec!["false".to_string()]);
}

#[test]
fn undefined_variable_aborts_the_rest() {
    let o = run("print y; '\"echo after\"'; print 1;", &[]);
    assert_eq!(o.result, Err(EvalError::UndefinedVariable("y".to_string())));
    assert!(o.shell.is_empty());
    assert!(o.out.is_empty());
}

#[test]
fn output_before_a_failure_stays() {
    let o = run("print 1; print y; print 2;", &[]);
    assert_eq!(o.out, vec!["1".to_string()]);
    assert_eq!(o.result, Err(EvalError::UndefinedVariable("y".to_string())));
}

#[test]
fn cyclic_references_are_unresolvable() {
    let o = run("let x = x; print x;", &[]);
    assert_eq!(o.result, Err(EvalError::Unresolvable("x".to_string())));
}

#[test]
fn references_are_followed_when_used() {
    let o = run("let x = 1; let y = x; let x = 2; print y;", &[]);
    assert_eq!(o.out, vec!["2".to_string()]);
}

#[test]
fn arithmetic_does_not_resolve_identifiers() {
    let o = run("let x = 1; print x + 1;", &[]);
    assert_eq!(o.result, Err(EvalError::TypeMismatch));
    assert_eq!(run("print \"a\" + 1;", &[]).result, Err(EvalError::TypeMismatch));
}

#[test]
fn if_condition_must_be_boolean() {
    assert_eq!(run("if 1 { print 2; }", &[]).result, Err(EvalError::TypeMismatch));
    assert_eq!(run("let b = true; if b { print 2; }", &[]).out, vec!["2".to_string()]);
}

#[test]
fn blocks_share_the_environment() {
    assert_eq!(run("{ let x = 5; } print x;", &[]).out, vec!["5".to_string()]);
    assert_eq!(run("if 1 < 2 { let x = 6; } print x;", &[]).out, vec!["6".to_string()]);
}

#[test]
fn postfix_question_prints() {
    assert_eq!(run("1 + 2?", &[]).out, vec!["3".to_string()]);
}

#[test]
fn expression_statements_print_nothing() {
    let o = run("1 + 2; read;", &["x\n"]);
    assert_eq!(o.result, Ok(()));
    assert!(o.out.is_empty());
}

#[test]
fn runs_are_repeatable() {
    let code = "let x = 3; print x; if x > 1 { print \"big\"; }";
    let a = run(code, &[]);
    let b = run(code, &[]);
    assert_eq!(a.out, b.out);
    assert_eq!(a.out, vec!["3".to_string(), "big".to_string()]);
    assert_eq!(a.result, b.result);
}

#[test]
fn comments_are_skipped() {
    let o = run("// a comment\nprint 1;\n// another\nprint 2;\n", &[]);
    assert_eq!(o.out, vec!["1".to_string(), "2".to_string()]);
}

#[test]
fn display_text_of_values() {
    assert_eq!(display_text(&RuntimeVal::Null), Some("null".to_string()));
    assert_eq!(display_text(&RuntimeVal::Bool(true)), Some("true".to_string()));
    assert_eq!(display_text(&RuntimeVal::Str("a b".to_string())), Some("a b".to_string()));
    assert_eq!(display_text(&RuntimeVal::Num(0)), None);
}

#[test]
fn long_sums_run() {
    let code = format!("print 1{};", " + 1".repeat(200));
    assert_eq!(run(&code, &[]).out, vec!["201".to_string()]);
}

#[test]
fn cycles_are_reported_by_the_starting_name() {
    let o = run("let x = y; let y = x; print y;", &[]);
    assert_eq!(o.result, Err(EvalError::Unresolvable("y".to_string())));
    let o = run("let x = y; let y = x; print x;", &[]);
    assert_eq!(o.result, Err(EvalError::Unresolvable("x".to_string())));
}

#[test]
fn rejected_text_runs_nothing() {
    assert!(run_code("print ;").is_err());
    assert!(run_code("'\"echo hi\"'; print ;").is_err());
}

#[test]
fn left_grouping() {
    let o = run("print 8 - 2 - 3; print 12 / 2 / 3;", &[]);
    assert_eq!(o.out, vec!["3".to_string(), "2".to_string()]);
}
