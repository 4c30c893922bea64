use minilang::{lex, Node, StatSeq, SyntaxError, TokenClass};

fn parse(src: &str) -> Result<StatSeq, minilang::ParseError> {
    let mut stream = lex(&src.to_string()).expect("lexes");
    StatSeq::parse(&mut stream)
}

fn parse_kind(src: &str) -> SyntaxError {
    parse(src).expect_err("fails").kind
}

fn single_expr(src: &str) -> Node {
    let mut seq = parse(src).expect("parses");
    assert_eq!(seq.nodes.len(), 1);
    match seq.nodes.pop().unwrap() {
        Node::Expr(e) => *e.expr,
        other => panic!("not an expression statement: {:?}", other),
    }
}

fn shape(n: &Node) -> String {
    match n {
        Node::Int(l) => l.value.to_string(),
        Node::Var(v) => v.name.clone(),
        Node::Binary(b) => format!("({} {} {})", shape(&b.left), b.op, shape(&b.right)),
        Node::Unary(u) => format!("({}{})", u.op, shape(&u.operand)),
        Node::Call(c) => {
            let args: Vec<String> = c.args.iter().map(shape).collect();
            format!("{}[{}]", c.name, args.join(" "))
        }
        Node::Array(a) => {
            let elems: Vec<String> = a.elem.iter().map(shape).collect();
            format!("<{}>", elems.join(" "))
        }
        other => format!("{:?}", other),
    }
}

#[test]
fn parse_precedence_multiplication_first() {
    assert_eq!(shape(&single_expr("1 + 2 * 3;\n")), "(1 + (2 * 3))");
}

#[test]
fn parse_parentheses_group() {
    assert_eq!(shape(&single_expr("(1 + 2) * 3;\n")), "((1 + 2) * 3)");
}

#[test]
fn parse_power_right_operand_climbs() {
    assert_eq!(shape(&single_expr("2 ^ 3 ^ 2;\n")), "(2 ^ (3 ^ 2))");
}

#[test]
fn parse_lower_precedence_ends_operand() {
    assert_eq!(shape(&single_expr("a * b + c;\n")), "((a * b) + c)");
    assert_eq!(shape(&single_expr("a < b && c;\n")), "((a < b) && c)");
}

#[test]
fn parse_unary_binds_tightest() {
    assert_eq!(shape(&single_expr("-a * b;\n")), "((-a) * b)");
    assert_eq!(shape(&single_expr("!a;\n")), "(!a)");
}

#[test]
fn parse_call_with_trailing_comma_and_array() {
    assert_eq!(shape(&single_expr("f(1, [2, 3,], g(),);\n")), "f[1 <2 3> g[]]");
}

#[test]
fn parse_module_access() {
    match single_expr("io::println(x);\n") {
        Node::Module(m) => {
            assert_eq!(m.mod_name, "io");
            assert_eq!(m.member.name, "println");
            assert_eq!(m.member.args.len(), 1);
        }
        other => panic!("not a module access: {:?}", other),
    }
}

#[test]
fn parse_name_without_namespace_is_a_variable() {
    assert!(matches!(
        parse("io println(x);\n").expect_err("fails").kind,
        SyntaxError::Expected { wanted: TokenClass::EndOfStatement, .. }
    ));
}

#[test]
fn parse_statement_kinds() {
    let seq = parse(
        "import io;\nx := 1;\nx += 2;\nfun f(a, b) { return a; }\nif (x) { } elif (y) { } else { }\nwhile (x) { }\nfor (e) (arr) { }\nreturn;\nf(1);\n",
    )
    .expect("parses");
    let kinds: Vec<&str> = seq
        .nodes
        .iter()
        .map(|n| match n {
            Node::Import(_) => "import",
            Node::Assign(_) => "assign",
            Node::FunDecl(_) => "fun",
            Node::If(_) => "if",
            Node::While(_) => "while",
            Node::For(_) => "for",
            Node::Return(_) => "return",
            Node::Expr(_) => "expr",
            _ => "other",
        })
        .collect();
    assert_eq!(
        kinds,
        vec!["import", "assign", "assign", "fun", "if", "while", "for", "return", "expr"]
    );
    match &seq.nodes[2] {
        Node::Assign(a) => assert_eq!(a.op, TokenClass::AssignOp("+=".to_string())),
        _ => unreachable!(),
    }
    match &seq.nodes[3] {
        Node::FunDecl(d) => {
            assert_eq!(d.name, "f");
            assert_eq!(d.args, vec!["a".to_string(), "b".to_string()]);
            assert_eq!(d.body.nodes.len(), 1);
        }
        _ => unreachable!(),
    }
}

#[test]
fn parse_elif_nests_as_else() {
    let seq = parse("if (a) { } elif (b) { x; } else { y; }\n").expect("parses");
    match &seq.nodes[0] {
        Node::If(i) => match i.else_block.as_deref() {
            Some(Node::If(inner)) => match inner.else_block.as_deref() {
                Some(Node::Block(b)) => assert_eq!(b.nodes.len(), 1),
                other => panic!("else block: {:?}", other),
            },
            other => panic!("elif: {:?}", other),
        },
        _ => unreachable!(),
    }
}

#[test]
fn parse_stops_at_unmatched_close() {
    let mut stream = lex(&"a; } b;\n".to_string()).unwrap();
    let seq = StatSeq::parse(&mut stream).unwrap();
    assert_eq!(seq.nodes.len(), 1);
    assert_eq!(stream.peek().unwrap().data, TokenClass::CurlyClose);
}

#[test]
fn parse_error_expected_token() {
    match parse_kind("x := 1\n") {
        SyntaxError::Expected { wanted, got } => {
            assert_eq!(wanted, TokenClass::EndOfStatement);
            assert!(got.is_none());
        }
        other => panic!("unexpected {:?}", other),
    }
    match parse_kind("(1;\n") {
        SyntaxError::Expected { wanted, got } => {
            assert_eq!(wanted, TokenClass::ParenClose);
            assert_eq!(got, Some(TokenClass::EndOfStatement));
        }
        other => panic!("unexpected {:?}", other),
    }
}

#[test]
fn parse_error_kinds() {
    assert!(matches!(parse_kind("x := \n"), SyntaxError::EndOfStream));
    assert!(matches!(parse_kind("x := ;\n"), SyntaxError::InvalidPrimary));
    assert!(matches!(parse_kind("fun 1() { }\n"), SyntaxError::ExpectedIdentifier));
    assert!(matches!(parse_kind("fun f(1) { }\n"), SyntaxError::ExpectedParameter));
    assert!(matches!(parse_kind("; x;\n"), SyntaxError::InvalidStatement));
    assert!(matches!(parse_kind("else { }\n"), SyntaxError::InvalidStatement));
}

#[test]
fn parse_error_reports_line() {
    let err = parse("a;\nb;\nc := ;\n").expect_err("fails");
    assert_eq!(err.line, 3);
}
