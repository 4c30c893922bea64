use minilang::{
    apply_binary_op, eval, eval_expr, lex, output_line, render, render_int, run, truthiness, BinOp, Host, ImportStat,
    IntLiteral, Node, Nodeable, Obj, RuntimeError, Scope, ScriptError, StatSeq,
};

#[derive(Default)]
struct Recorder {
    lines: Vec<String>,
}

impl Host for Recorder {
    fn float_of_text(&mut self, text: &str) -> u64 {
        text.parse::<f64>().expect("float literal").to_bits()
    }

    fn float_arith(&mut self, op: BinOp, a: u64, b: u64) -> u64 {
        let (x, y) = (f64::from_bits(a), f64::from_bits(b));
        let r = match op {
            BinOp::Add => x + y,
            BinOp::Sub => x - y,
            BinOp::Mul => x * y,
            BinOp::Div => x / y,
            BinOp::Rem => x % y,
            BinOp::Pow => x.powf(y),
            _ => panic!("not arithmetic"),
        };
        r.to_bits()
    }

    fn float_compare(&mut self, op: BinOp, a: u64, b: u64) -> bool {
        let (x, y) = (f64::from_bits(a), f64::from_bits(b));
        match op {
            BinOp::Gt => x > y,
            BinOp::Lt => x < y,
            BinOp::Ge => x >= y,
            BinOp::Le => x <= y,
            BinOp::Eq => x == y,
            BinOp::Ne => x != y,
            _ => panic!("not a comparison"),
        }
    }

    fn render_float(&mut self, a: u64) -> String {
        format!("{}", f64::from_bits(a))
    }

    fn print_line(&mut self, line: String) {
        self.lines.push(line);
    }
}

const STEPS: u64 = 1_000_000;

fn exec(src: &str) -> (Result<(), ScriptError>, Vec<String>) {
    let mut host = Recorder::default();
    let r = run(&src.to_string(), &mut host, STEPS);
    (r, host.lines)
}

fn output(src: &str) -> Vec<String> {
    let (r, lines) = exec(src);
    if let Err(e) = r {
        panic!("program failed: {:?}", e);
    }
    lines
}

fn printed(v: &str) -> String {
    format!("dbg out: {}", v)
}

fn runtime_error(src: &str) -> RuntimeError {
    match exec(src).0 {
        Err(ScriptError::Runtime(e)) => e,
        other => panic!("expected a runtime error, got {:?}", other),
    }
}

#[test]
fn precedence_of_multiplication() {
    assert_eq!(output("io::println(1 + 2 * 3);\n"), vec![printed("7")]);
}

#[test]
fn parentheses_group_first() {
    assert_eq!(output("io::println((1 + 2) * 3);\n"), vec![printed("9")]);
}

#[test]
fn power_climbs_to_the_right() {
    assert_eq!(output("io::println(2 ^ 3 ^ 2);\n"), vec![printed("512")]);
}

#[test]
fn mixed_int_and_float_is_an_error() {
    assert!(matches!(runtime_error("x := 1 + 1.0;\n"), RuntimeError::Mismatch(BinOp::Add)));
    assert!(matches!(runtime_error("x := 1 == 1.0;\n"), RuntimeError::Mismatch(BinOp::Eq)));
}

#[test]
fn strings_concatenate() {
    assert_eq!(output("io::println(\"a\" + \"b\");\n"), vec![printed("ab")]);
    assert!(matches!(runtime_error("x := \"a\" - \"b\";\n"), RuntimeError::Mismatch(BinOp::Sub)));
}

#[test]
fn nil_propagates_through_every_operator() {
    let mut host = Recorder::default();
    let others = [
        Obj::Int(1),
        Obj::Float(1.5f64.to_bits()),
        Obj::String("s".to_string()),
        Obj::Bool(true),
        Obj::Array(vec![Obj::Int(0)]),
        Obj::Nil,
        Obj::Invalid,
    ];
    for op in ["+", "-", "*", "/", "^", "%", ">", "<", ">=", "<=", "==", "!=", "&&", "||", "!"] {
        for v in others.iter() {
            let a = apply_binary_op(&Obj::Nil, v, op, &mut host);
            assert!(matches!(a, Ok(Obj::Nil)), "Nil {} {:?}", op, v);
            let b = apply_binary_op(v, &Obj::Nil, op, &mut host);
            assert!(matches!(b, Ok(Obj::Nil)), "{:?} {} Nil", v, op);
        }
    }
}

#[test]
fn integer_arithmetic_values() {
    let mut host = Recorder::default();
    let cases: [(&str, i64, i64, i64); 7] = [
        ("+", 2, 3, 5),
        ("-", 2, 3, -1),
        ("*", -4, 3, -12),
        ("/", -7, 2, -3),
        ("%", -7, 2, -1),
        ("^", 3, 4, 81),
        ("^", -2, 63, i64::MIN),
    ];
    for (op, x, y, want) in cases {
        match apply_binary_op(&Obj::Int(x), &Obj::Int(y), op, &mut host) {
            Ok(Obj::Int(v)) => assert_eq!(v, want, "{} {} {}", x, op, y),
            other => panic!("{} {} {}: {:?}", x, op, y, other),
        }
    }
    assert!(matches!(
        apply_binary_op(&Obj::Int(3), &Obj::Int(2), ">=", &mut host),
        Ok(Obj::Bool(true))
    ));
    assert!(matches!(
        apply_binary_op(&Obj::Bool(true), &Obj::Bool(false), "||", &mut host),
        Ok(Obj::Bool(true))
    ));
    assert!(matches!(
        apply_binary_op(&Obj::Int(1), &Obj::Int(2), "!", &mut host),
        Ok(Obj::Invalid)
    ));
}

#[test]
fn integer_errors() {
    assert!(matches!(runtime_error("x := 1 / 0;\n"), RuntimeError::DivisionByZero));
    assert!(matches!(runtime_error("x := 1 % 0;\n"), RuntimeError::DivisionByZero));
    assert!(matches!(
        runtime_error("x := 9223372036854775807 + 1;\n"),
        RuntimeError::Overflow
    ));
    assert!(matches!(runtime_error("x := 2 ^ 64;\n"), RuntimeError::Overflow));
    assert!(matches!(runtime_error("x := true && 1;\n"), RuntimeError::Undefined(_)));
    assert!(matches!(runtime_error("x := (1 < 2) && 1;\n"), RuntimeError::Mismatch(BinOp::And)));
}

#[test]
fn unary_operators() {
    assert_eq!(output("io::println(-5);\nio::println(!(1 < 2));\n"), vec![printed("-5"), printed("false")]);
    match runtime_error("x := !1;\n") {
        RuntimeError::UnaryMismatch(op) => assert_eq!(op, "!"),
        other => panic!("unexpected {:?}", other),
    }
}

#[test]
fn float_arithmetic_goes_through_the_host() {
    assert_eq!(
        output("io::println(1.5 + 2.25);\nio::println(-0.5);\nio::println(3.0 > 2.5);\n"),
        vec![printed("3.75"), printed("-0.5"), printed("true")]
    );
}

#[test]
fn function_call_does_not_change_caller_variables() {
    let src = "x := 1;\nfun f() { x = 5; return x; }\ny := f();\nio::println(x);\nio::println(y);\n";
    assert_eq!(output(src), vec![printed("1"), printed("5")]);
}

#[test]
fn for_body_does_not_change_outer_variables() {
    let src = "x := 1;\nfor (e) ([7, 8]) { x = e; }\nio::println(x);\n";
    assert_eq!(output(src), vec![printed("1")]);
}

#[test]
fn while_body_changes_persist() {
    let src = "i := 0;\nwhile (i < 3) { i += 1; }\nio::println(i);\n";
    assert_eq!(output(src), vec![printed("3")]);
}

#[test]
fn redefinition_is_an_error() {
    match runtime_error("x := 1;\nx := 2;\n") {
        RuntimeError::Redefinition(name) => assert_eq!(name, "x"),
        other => panic!("unexpected {:?}", other),
    }
}

#[test]
fn assignment_rebinds() {
    assert_eq!(output("x := 1;\nx = 2;\nio::println(x);\n"), vec![printed("2")]);
    match runtime_error("y = 2;\n") {
        RuntimeError::Undefined(name) => assert_eq!(name, "y"),
        other => panic!("unexpected {:?}", other),
    }
    match runtime_error("y += 2;\n") {
        RuntimeError::Undefined(name) => assert_eq!(name, "y"),
        other => panic!("unexpected {:?}", other),
    }
}

#[test]
fn compound_assignment() {
    let src = "x := 10;\nx -= 3;\nx *= 2;\nx /= 7;\nio::println(x);\ns := \"a\";\ns += \"b\";\nio::println(s);\n";
    assert_eq!(output(src), vec![printed("2"), printed("ab")]);
}

#[test]
fn recursive_fibonacci() {
    let src = "fun fib(n) { if (n < 2) { return n; } return fib(n-1) + fib(n-2); }\nio::println(fib(10));\n";
    assert_eq!(output(src), vec![printed("55")]);
}

#[test]
fn for_visits_elements_in_order_and_binding_does_not_leak() {
    let src = "for (e) ([1, \"two\", 3]) { io::println(e); }\n";
    assert_eq!(output(src), vec![printed("1"), printed("two"), printed("3")]);
    match runtime_error("for (e) ([1]) { }\nio::println(e);\n") {
        RuntimeError::Undefined(name) => assert_eq!(name, "e"),
        other => panic!("unexpected {:?}", other),
    }
}

#[test]
fn while_on_empty_string_never_enters() {
    assert_eq!(output("while (\"\") { io::println(1); }\nio::println(2);\n"), vec![printed("2")]);
}

#[test]
fn while_on_non_empty_array_enters() {
    let mut host = Recorder::default();
    let r = run(&"while ([0]) { io::println(1); }\n".to_string(), &mut host, 50);
    assert!(matches!(r, Err(ScriptError::Runtime(RuntimeError::OutOfSteps))));
    assert!(!host.lines.is_empty());
    assert_eq!(host.lines[0], printed("1"));
}

#[test]
fn truthiness_of_values() {
    assert!(!truthiness(&Obj::String(String::new())));
    assert!(truthiness(&Obj::String("x".to_string())));
    assert!(truthiness(&Obj::Array(vec![Obj::Int(0)])));
    assert!(!truthiness(&Obj::Array(vec![])));
    assert!(!truthiness(&Obj::Int(0)));
    assert!(truthiness(&Obj::Int(-1)));
    assert!(!truthiness(&Obj::Float(0.0f64.to_bits())));
    assert!(!truthiness(&Obj::Float((-0.0f64).to_bits())));
    assert!(truthiness(&Obj::Float(0.25f64.to_bits())));
    assert!(truthiness(&Obj::Float(f64::NAN.to_bits())));
    assert!(!truthiness(&Obj::Nil));
    assert!(!truthiness(&Obj::Invalid));
    assert!(truthiness(&Obj::Bool(true)));
}

#[test]
fn if_elif_else_chain() {
    let src = "x := 2;\nif (x == 1) { io::println(\"one\"); } elif (x == 2) { io::println(\"two\"); } else { io::println(\"other\"); }\nif (0) { io::println(\"no\"); } else { io::println(\"else\"); }\n";
    assert_eq!(output(src), vec![printed("two"), printed("else")]);
}

#[test]
fn arrays_render_with_trailing_separator() {
    assert_eq!(output("io::println([1, [2, \"x\"], 3 < 4]);\n"), vec![printed("[1, [2, x, ], true, ]")]);
    assert_eq!(output("io::println([]);\n"), vec![printed("[]")]);
}

#[test]
fn render_values_directly() {
    let mut host = Recorder::default();
    assert_eq!(render(&Obj::Nil, &mut host).unwrap(), "Nil");
    assert_eq!(render(&Obj::Int(-120), &mut host).unwrap(), "-120");
    assert_eq!(render(&Obj::Bool(false), &mut host).unwrap(), "false");
    assert!(matches!(render(&Obj::Invalid, &mut host), Err(RuntimeError::RenderInvalid)));
    assert!(matches!(
        render(&Obj::Array(vec![Obj::Int(1), Obj::Invalid]), &mut host),
        Err(RuntimeError::RenderInvalid)
    ));
}

#[test]
fn function_sees_caller_variables_and_extra_arguments_are_dropped() {
    let src = "k := 10;\nfun add(a, b) { return a + b + k; }\nio::println(add(1, 2, 3));\nfun g() { return; }\nio::println(g());\n";
    let (r, lines) = exec(src);
    assert_eq!(lines, vec![printed("13")]);
    assert!(matches!(r, Err(ScriptError::Runtime(RuntimeError::RenderInvalid))));
}

#[test]
fn function_declared_twice_is_overwritten_and_called_twice() {
    let src = "fun f() { return 1; }\nfun f() { return 2; }\nio::println(f() + f());\n";
    assert_eq!(output(src), vec![printed("4")]);
}

#[test]
fn runtime_error_kinds() {
    match runtime_error("x := g(1);\n") {
        RuntimeError::UndeclaredFunction(name) => assert_eq!(name, "g"),
        other => panic!("unexpected {:?}", other),
    }
    assert!(matches!(runtime_error("for (e) (1) { }\n"), RuntimeError::NotAnArray));
    match runtime_error("io::print(1);\n") {
        RuntimeError::UnknownMember(m, f) => {
            assert_eq!(m, "io");
            assert_eq!(f, "print");
        }
        other => panic!("unexpected {:?}", other),
    }
    assert!(matches!(runtime_error("io::println();\n"), RuntimeError::MissingArgument));
    assert!(matches!(runtime_error("io::println(io::println(1));\n"), RuntimeError::RenderInvalid));
}

#[test]
fn program_without_final_newline() {
    assert_eq!(output("x := 2;\nio::println(x * 3);"), vec![printed("6")]);
}

#[test]
fn import_has_no_effect() {
    assert_eq!(output("import io;\nio::println(1);\n"), vec![printed("1")]);
}

#[test]
fn return_inside_for_does_not_leave_the_function() {
    let src = "fun f() { for (e) ([1, 2]) { return e; } return 0; }\nio::println(f());\n";
    assert_eq!(output(src), vec![printed("0")]);
}

#[test]
fn lexical_and_parse_errors_stop_the_program() {
    assert!(matches!(exec("x := 1 $ 2;\n").0, Err(ScriptError::Lex(_))));
    assert!(matches!(exec("x := ;\n").0, Err(ScriptError::Parse(_))));
}

#[test]
fn out_of_steps() {
    let mut host = Recorder::default();
    let r = run(&"while (1) { }\n".to_string(), &mut host, 1000);
    assert!(matches!(r, Err(ScriptError::Runtime(RuntimeError::OutOfSteps))));
    let mut fuel = 0u64;
    let mut scope = Scope::new();
    let node = Node::Int(IntLiteral { value: 3 });
    assert!(matches!(eval(&node, &mut scope, &mut host, &mut fuel), Err(RuntimeError::OutOfSteps)));
}

#[test]
fn statement_node_is_no_expression() {
    let mut host = Recorder::default();
    let mut fuel = 10u64;
    let scope = Scope::new();
    let node = Node::Import(ImportStat { mod_name: "io".to_string() });
    assert!(matches!(eval_expr(&node, &scope, &mut host, &mut fuel), Err(RuntimeError::Malformed)));
}

#[test]
fn integer_literal_wraps_to_signed() {
    let mut host = Recorder::default();
    let mut fuel = 10u64;
    let scope = Scope::new();
    let node = Node::Int(IntLiteral { value: u64::MAX });
    assert!(matches!(eval_expr(&node, &scope, &mut host, &mut fuel), Ok(Obj::Int(-1))));
}

#[test]
fn parsed_block_evaluates_through_nodeable() {
    let mut stream = lex(&"x := 4;\nx *= x;\n".to_string()).unwrap();
    let seq = StatSeq::parse(&mut stream).unwrap();
    let mut host = Recorder::default();
    let mut scope = Scope::new();
    let mut fuel = STEPS;
    assert!(seq.eval(&mut scope, &mut host, &mut fuel).is_ok());
    assert_eq!(scope.vars.len(), 1);
    assert_eq!(scope.vars[0].name, "x");
    assert!(matches!(scope.vars[0].value, Obj::Int(16)));
}

#[test]
fn integers_render_in_decimal() {
    assert_eq!(render_int(0), "0");
    assert_eq!(render_int(7), "7");
    assert_eq!(render_int(-120), "-120");
    assert_eq!(render_int(i64::MAX), "9223372036854775807");
    assert_eq!(render_int(i64::MIN), "-9223372036854775808");
}

#[test]
fn output_line_has_prefix_and_exact_array_text() {
    let mut host = Recorder::default();
    let v = Obj::Array(vec![
        Obj::Int(1),
        Obj::Array(vec![]),
        Obj::Nil,
        Obj::Bool(true),
        Obj::String("hi".to_string()),
    ]);
    assert_eq!(output_line(&v, &mut host).unwrap(), "dbg out: [1, [], Nil, true, hi, ]");
    assert!(matches!(output_line(&Obj::Invalid, &mut host), Err(RuntimeError::RenderInvalid)));
}
