use std::rc::Rc;
use vstd::prelude::*;
use crate::lexer::{ClassView, ParseError, Stream, StreamView, SyntaxError, TokenClass, TokenView, text_is};

verus! {

/// A node of the syntax tree.
#[derive(Debug)]
pub enum Node {
    Block(StatSeq),
    Import(ImportStat),
    Assign(VariableAssign),
    Binary(BinaryExpr),
    Unary(UnaryExpr),
    Int(IntLiteral),
    Float(FloatLiteral),
    Str(StrLiteral),
    Var(Variable),
    Call(FunctionCall),
    Module(ModAccess),
    Array(ArrayLiteral),
    Return(ReturnStat),
    FunDecl(FunctionDeclare),
    Expr(ExprStat),
    If(IfStat),
    While(WhileStat),
    For(ForStat),
}

/// A sequence of statements; a whole program is one.
#[derive(Debug)]
pub struct StatSeq {
    pub nodes: Vec<Node>,
}

#[derive(Debug)]
pub struct ImportStat {
    pub mod_name: String,
}

/// `name := expr;`, `name = expr;` or `name op= expr;`; `op` is the
/// `Define`, `Assign` or `AssignOp` token.
#[derive(Debug)]
pub struct VariableAssign {
    pub var_name: String,
    pub op: TokenClass,
    pub expr: Box<Node>,
}

#[derive(Debug)]
pub struct BinaryExpr {
    pub op: String,
    pub left: Box<Node>,
    pub right: Box<Node>,
}

#[derive(Debug)]
pub struct UnaryExpr {
    pub op: String,
    pub operand: Box<Node>,
}

#[derive(Debug)]
pub struct IntLiteral {
    pub value: u64,
}

/// A float literal, kept as its decimal text.
#[derive(Debug)]
pub struct FloatLiteral {
    pub text: String,
}

#[derive(Debug)]
pub struct StrLiteral {
    pub value: String,
}

#[derive(Debug)]
pub struct Variable {
    pub name: String,
}

#[derive(Debug)]
pub struct FunctionCall {
    pub name: String,
    pub args: Vec<Node>,
}

/// `module::member(args)`, or `module member(args)`.
#[derive(Debug)]
pub struct ModAccess {
    pub mod_name: String,
    pub member: FunctionCall,
}

#[derive(Debug)]
pub struct ArrayLiteral {
    pub elem: Vec<Node>,
}

#[derive(Debug)]
pub struct ReturnStat {
    pub expr: Option<Box<Node>>,
}

/// A function declaration; its body is shared with every function record
/// made from it.
#[derive(Debug)]
pub struct FunctionDeclare {
    pub name: String,
    pub args: Vec<String>,
    pub body: Rc<StatSeq>,
}

#[derive(Debug)]
pub struct ExprStat {
    pub expr: Box<Node>,
}

/// `if (cond) { .. }`, then `elif` (a nested `IfStat`) or `else` (a block).
#[derive(Debug)]
pub struct IfStat {
    pub condition: Box<Node>,
    pub if_block: StatSeq,
    pub else_block: Option<Box<Node>>,
}

#[derive(Debug)]
pub struct WhileStat {
    pub condition: Box<Node>,
    pub body: StatSeq,
}

#[derive(Debug)]
pub struct ForStat {
    pub elem_name: String,
    pub array: Box<Node>,
    pub body: StatSeq,
}

/// The binding strength of a binary operator; 0 for any other text.
pub open spec fn precedence(op: Seq<char>) -> u32 {
    if op == "||"@ {
        1
    } else if op == "&&"@ {
        2
    } else if op == "!="@ || op == "=="@ || op == ">"@ || op == "<"@ || op == ">="@ || op
        == "<="@ {
        3
    } else if op == "+"@ || op == "-"@ {
        5
    } else if op == "*"@ || op == "/"@ || op == "%"@ {
        6
    } else if op == "^"@ {
        7
    } else {
        0
    }
}

pub fn get_op_precedence(op: &str) -> (r: u32)
    ensures
        r == precedence(op@),
{
    if text_is(op, "||") {
        1
    } else if text_is(op, "&&") {
        2
    } else if text_is(op, "!=") || text_is(op, "==") || text_is(op, ">") || text_is(op, "<")
        || text_is(op, ">=") || text_is(op, "<=") {
        3
    } else if text_is(op, "+") || text_is(op, "-") {
        5
    } else if text_is(op, "*") || text_is(op, "/") || text_is(op, "%") {
        6
    } else if text_is(op, "^") {
        7
    } else {
        0
    }
}


/// The cursor moved forward over the same tokens, by at least one token where
/// the parse succeeded.
pub open spec fn consumed<T>(a: StreamView, b: StreamView, r: Result<T, ParseError>) -> bool {
    &&& a.reaches(b)
    &&& r is Ok ==> b.index > a.index
}

fn keyword(w: &str) -> (r: TokenClass)
    ensures
        r@ == ClassView::Keyword(w@),
{
    TokenClass::Keyword(w.to_owned())
}

/// The cursor stands at the end of the tokens or at a `}`.
fn at_block_end(stream: &Stream) -> (r: bool)
    requires
        stream@.wf(),
    ensures
        r == (stream@.current() is None || stream@.current_is(ClassView::CurlyClose)),
{
    match stream.peek() {
        None => true,
        Some(t) => match &t.data {
            TokenClass::CurlyClose => true,
            _ => false,
        },
    }
}

pub fn parse_block(stream: &mut Stream) -> (r: Result<StatSeq, ParseError>)
    requires
        old(stream)@.wf(),
    ensures
        consumed(old(stream)@, final(stream)@, r),
        agrees(
            parsed_block(old(stream)@.tokens, old(stream)@.index as int),
            match r {
                Ok(b) => Some(nodes_view(b.nodes@)),
                Err(_) => None,
            },
            final(stream)@.index,
        ),
    decreases old(stream)@.remaining(), 7nat,
{
    stream.expect(TokenClass::CurlyOpen)?;
    let block = StatSeq::parse(stream)?;
    stream.expect(TokenClass::CurlyClose)?;
    Ok(block)
}

pub fn parse_condition(stream: &mut Stream) -> (r: Result<Node, ParseError>)
    requires
        old(stream)@.wf(),
    ensures
        consumed(old(stream)@, final(stream)@, r),
        agrees(parsed_condition(old(stream)@.tokens, old(stream)@.index as int), node_of(r), final(stream)@.index),
    decreases old(stream)@.remaining(), 7nat,
{
    stream.expect(TokenClass::ParenOpen)?;
    let expr = parse_expr(stream)?;
    stream.expect(TokenClass::ParenClose)?;
    Ok(expr)
}

impl StatSeq {
    /// Parses statements up to a `}` or the end of the tokens, which it does
    /// not consume.
    pub fn parse(stream: &mut Stream) -> (r: Result<StatSeq, ParseError>)
        requires
            old(stream)@.wf(),
        ensures
            old(stream)@.reaches(final(stream)@),
            r is Ok ==> final(stream)@.current() is None || final(stream)@.current_is(
                ClassView::CurlyClose,
            ),
            agrees(
                parsed_seq(old(stream)@.tokens, old(stream)@.index as int),
                match r {
                    Ok(b) => Some(nodes_view(b.nodes@)),
                    Err(_) => None,
                },
                final(stream)@.index,
            ),
        decreases old(stream)@.remaining(), 10nat,
    {
        let mut nodes: Vec<Node> = Vec::new();
        let ghost ts = stream@.tokens;
        let ghost p0 = stream@.index as int;
        proof {
            lemma_prepend_empty(parsed_seq(ts, p0));
        }
        while !at_block_end(stream)
            invariant
                stream@.wf(),
                old(stream)@.reaches(stream@),
                ts == stream@.tokens,
                p0 == old(stream)@.index,
                parsed_seq(ts, p0) == prepend(nodes_view(nodes@), parsed_seq(ts, stream@.index as int)),
            decreases stream@.remaining(),
        {
            let ghost p = stream@.index as int;
            let node = match parse_statement(stream) {
                Ok(node) => node,
                Err(e) => {
                    proof {
                        assert(parsed_seq(ts, p) is None);
                    }
                    return Err(e);
                },
            };
            proof {
                lemma_prepend_push(
                    nodes_view(nodes@),
                    node_view(node),
                    parsed_seq(ts, stream@.index as int),
                );
                lemma_nodes_view_push(nodes@, node);
            }
            nodes.push(node);
        }
        proof {
            lemma_prepend_end(nodes_view(nodes@), stream@.index as int);
        }
        Ok(StatSeq { nodes })
    }
}


/// The kind of statement that the current token begins.
#[derive(PartialEq, Eq, Structural, Clone, Copy, Debug)]
pub enum StatKind {
    If,
    While,
    For,
    Fun,
    Return,
    Import,
    Assign,
    Expr,
    Invalid,
}

pub open spec fn is_assign_class(c: Option<ClassView>) -> bool {
    match c {
        Some(ClassView::AssignOp(_)) | Some(ClassView::Assign) | Some(ClassView::Define) => true,
        _ => false,
    }
}

/// A statement is chosen by its first token; a name followed by `:=`, `=` or
/// an assigning operator begins an assignment.
pub open spec fn statement_kind(s: StreamView) -> StatKind {
    match s.current() {
        None => StatKind::Invalid,
        Some(t) => match t.class {
            ClassView::Keyword(k) => if k == "if"@ {
                StatKind::If
            } else if k == "while"@ {
                StatKind::While
            } else if k == "for"@ {
                StatKind::For
            } else if k == "fun"@ {
                StatKind::Fun
            } else if k == "return"@ {
                StatKind::Return
            } else if k == "import"@ {
                StatKind::Import
            } else {
                StatKind::Invalid
            },
            ClassView::Identifier(_) => if is_assign_class(s.at(1)) {
                StatKind::Assign
            } else {
                StatKind::Expr
            },
            ClassView::ParenOpen | ClassView::Integer(_) | ClassView::Float(_) | ClassView::Str(_)
            | ClassView::Operator(_) => StatKind::Expr,
            _ => StatKind::Invalid,
        },
    }
}

/// The node that a statement of the kind becomes.
pub open spec fn node_of_kind(n: Node, k: StatKind) -> bool {
    match k {
        StatKind::If => n is If,
        StatKind::While => n is While,
        StatKind::For => n is For,
        StatKind::Fun => n is FunDecl,
        StatKind::Return => n is Return,
        StatKind::Import => n is Import,
        StatKind::Assign => n is Assign,
        StatKind::Expr => n is Expr,
        StatKind::Invalid => false,
    }
}

pub fn lookhead_assign(stream: &Stream) -> (r: bool)
    requires
        stream@.wf(),
    ensures
        r == is_assign_class(stream@.at(1)),
{
    match stream.lookhead(1) {
        Some(TokenClass::AssignOp(_)) => true,
        Some(TokenClass::Assign) => true,
        Some(TokenClass::Define) => true,
        _ => false,
    }
}

pub fn lookhead_fn_call(stream: &Stream) -> (r: bool)
    requires
        stream@.wf(),
    ensures
        r == (stream@.at(1) == Some(ClassView::ParenOpen)),
{
    match stream.lookhead(1) {
        Some(TokenClass::ParenOpen) => true,
        _ => false,
    }
}

pub fn lookhead_mod(stream: &Stream) -> (r: bool)
    requires
        stream@.wf(),
    ensures
        r == (stream@.at(1) == Some(ClassView::Namespace)),
{
    match stream.lookhead(1) {
        Some(TokenClass::Namespace) => true,
        _ => false,
    }
}

fn statement_kind_at(stream: &Stream) -> (r: StatKind)
    requires
        stream@.wf(),
    ensures
        r == statement_kind(stream@),
{
    match stream.peek() {
        None => StatKind::Invalid,
        Some(t) => match &t.data {
            TokenClass::Keyword(k) => {
                if text_is(k, "if") {
                    StatKind::If
                } else if text_is(k, "while") {
                    StatKind::While
                } else if text_is(k, "for") {
                    StatKind::For
                } else if text_is(k, "fun") {
                    StatKind::Fun
                } else if text_is(k, "return") {
                    StatKind::Return
                } else if text_is(k, "import") {
                    StatKind::Import
                } else {
                    StatKind::Invalid
                }
            },
            TokenClass::Identifier(_) => {
                if lookhead_assign(stream) {
                    StatKind::Assign
                } else {
                    StatKind::Expr
                }
            },
            TokenClass::ParenOpen | TokenClass::Integer(_) | TokenClass::Float(_)
            | TokenClass::String(_) | TokenClass::Operator(_) => StatKind::Expr,
            _ => StatKind::Invalid,
        },
    }
}

/// Parses one statement, of the kind that its first token selects.
pub fn parse_statement(stream: &mut Stream) -> (r: Result<Node, ParseError>)
    requires
        old(stream)@.wf(),
    ensures
        consumed(old(stream)@, final(stream)@, r),
        r is Err <== statement_kind(old(stream)@) == StatKind::Invalid,
        r matches Ok(n) ==> node_of_kind(n, statement_kind(old(stream)@)),
        agrees(parsed_statement(old(stream)@.tokens, old(stream)@.index as int), node_of(r), final(stream)@.index),
    decreases old(stream)@.remaining(), 9nat,
{
    match statement_kind_at(stream) {
        StatKind::If => Ok(Node::If(IfStat::parse(stream)?)),
        StatKind::While => Ok(Node::While(WhileStat::parse(stream)?)),
        StatKind::For => Ok(Node::For(ForStat::parse(stream)?)),
        StatKind::Fun => Ok(Node::FunDecl(FunctionDeclare::parse(stream)?)),
        StatKind::Return => Ok(Node::Return(ReturnStat::parse(stream)?)),
        StatKind::Import => Ok(Node::Import(ImportStat::parse(stream)?)),
        StatKind::Assign => Ok(Node::Assign(VariableAssign::parse(stream)?)),
        StatKind::Expr => Ok(Node::Expr(ExprStat::parse(stream)?)),
        StatKind::Invalid => Err(stream.error(SyntaxError::InvalidStatement)),
    }
}

impl IfStat {
    pub fn parse(stream: &mut Stream) -> (r: Result<IfStat, ParseError>)
        requires
            old(stream)@.wf(),
        ensures
            consumed(old(stream)@, final(stream)@, r),
            agrees(
                parsed_if(old(stream)@.tokens, old(stream)@.index as int),
                match r {
                    Ok(x) => Some(node_view(Node::If(x))),
                    Err(_) => None,
                },
                final(stream)@.index,
            ),
        decreases old(stream)@.remaining(), 8nat,
    {
        stream.maybe(keyword("if"));
        let condition = parse_condition(stream)?;
        let if_block = parse_block(stream)?;
        let follow: u8 = match stream.peek() {
            Some(t) => match &t.data {
                TokenClass::Keyword(k) => if text_is(k, "elif") {
                    1
                } else if text_is(k, "else") {
                    2
                } else {
                    0
                },
                _ => 0,
            },
            None => 0,
        };
        let else_block = if follow == 1 {
            stream.next();
            Some(Box::new(Node::If(IfStat::parse(stream)?)))
        } else if follow == 2 {
            stream.next();
            let block = parse_block(stream)?;
            assert(node_view(Node::Block(block)) == NodeV::Block(nodes_view(block.nodes@)));
            Some(Box::new(Node::Block(block)))
        } else {
            None
        };
        Ok(IfStat { condition: Box::new(condition), if_block, else_block })
    }
}

impl WhileStat {
    pub fn parse(stream: &mut Stream) -> (r: Result<WhileStat, ParseError>)
        requires
            old(stream)@.wf(),
        ensures
            consumed(old(stream)@, final(stream)@, r),
            agrees(
                parsed_while(old(stream)@.tokens, old(stream)@.index as int),
                match r {
                    Ok(x) => Some(node_view(Node::While(x))),
                    Err(_) => None,
                },
                final(stream)@.index,
            ),
        decreases old(stream)@.remaining(), 8nat,
    {
        stream.maybe(keyword("while"));
        let condition = parse_condition(stream)?;
        let body = parse_block(stream)?;
        Ok(WhileStat { condition: Box::new(condition), body })
    }
}

/// Consumes an identifier and returns its text.
pub fn parse_name(stream: &mut Stream) -> (r: Result<String, ParseError>)
    requires
        old(stream)@.wf(),
    ensures
        consumed(old(stream)@, final(stream)@, r),
        agrees(
            parsed_name(old(stream)@.tokens, old(stream)@.index as int),
            match r {
                Ok(n) => Some(n@),
                Err(_) => None,
            },
            final(stream)@.index,
        ),
        r matches Ok(n) ==> old(stream)@.current_is(ClassView::Identifier(n@)),
{
    match stream.pop() {
        None => Err(stream.error(SyntaxError::EndOfStream)),
        Some(token) => match token.data {
            TokenClass::Identifier(name) => Ok(name),
            _ => Err(stream.error(SyntaxError::ExpectedIdentifier)),
        },
    }
}

impl ForStat {
    pub fn parse(stream: &mut Stream) -> (r: Result<ForStat, ParseError>)
        requires
            old(stream)@.wf(),
        ensures
            consumed(old(stream)@, final(stream)@, r),
            agrees(
                parsed_for(old(stream)@.tokens, old(stream)@.index as int),
                match r {
                    Ok(x) => Some(node_view(Node::For(x))),
                    Err(_) => None,
                },
                final(stream)@.index,
            ),
        decreases old(stream)@.remaining(), 8nat,
    {
        stream.maybe(keyword("for"));
        stream.expect(TokenClass::ParenOpen)?;
        let elem_name = parse_name(stream)?;
        stream.expect(TokenClass::ParenClose)?;
        stream.expect(TokenClass::ParenOpen)?;
        let array = parse_expr(stream)?;
        stream.expect(TokenClass::ParenClose)?;
        let body = parse_block(stream)?;
        Ok(ForStat { elem_name, array: Box::new(array), body })
    }
}

impl ReturnStat {
    pub fn parse(stream: &mut Stream) -> (r: Result<ReturnStat, ParseError>)
        requires
            old(stream)@.wf(),
        ensures
            consumed(old(stream)@, final(stream)@, r),
            agrees(
                parsed_return(old(stream)@.tokens, old(stream)@.index as int),
                match r {
                    Ok(x) => Some(node_view(Node::Return(x))),
                    Err(_) => None,
                },
                final(stream)@.index,
            ),
        decreases old(stream)@.remaining(), 8nat,
    {
        stream.maybe(keyword("return"));
        let bare = match stream.peek() {
            None => {
                return Err(stream.error(SyntaxError::EndOfStream));
            },
            Some(t) => match &t.data {
                TokenClass::EndOfStatement => true,
                _ => false,
            },
        };
        let expr = if bare {
            None
        } else {
            Some(Box::new(parse_expr(stream)?))
        };
        stream.expect(TokenClass::EndOfStatement)?;
        Ok(ReturnStat { expr })
    }
}

pub fn parse_func_args(stream: &mut Stream) -> (r: Result<Vec<String>, ParseError>)
    requires
        old(stream)@.wf(),
    ensures
        consumed(old(stream)@, final(stream)@, r),
        agrees(
            parsed_params(old(stream)@.tokens, old(stream)@.index as int),
            match r {
                Ok(v) => Some(names_view(v@)),
                Err(_) => None,
            },
            final(stream)@.index,
        ),
{
    let mut out: Vec<String> = Vec::new();
    stream.expect(TokenClass::ParenOpen)?;
    let ghost ts = stream@.tokens;
    let ghost p1 = stream@.index as int;
    proof {
        lemma_prepend_empty(parsed_names(ts, p1));
    }
    loop
        invariant
            stream@.wf(),
            old(stream)@.reaches(stream@),
            stream@.index > old(stream)@.index,
            ts == stream@.tokens,
            p1 == old(stream)@.index + 1,
            parsed_names(ts, p1) == prepend(names_view(out@), parsed_names(ts, stream@.index as int)),
        ensures
            stream@.wf(),
            old(stream)@.reaches(stream@),
            stream@.index > old(stream)@.index,
            ts == stream@.tokens,
            p1 == old(stream)@.index + 1,
            parsed_names(ts, p1) == prepend(names_view(out@), parsed_names(ts, stream@.index as int)),
            stream@.current() is None || stream@.current_is(ClassView::ParenClose),
        decreases stream@.remaining(),
    {
        let step: u8 = match stream.peek() {
            None => 0,
            Some(t) => match &t.data {
                TokenClass::Identifier(_) => 1,
                TokenClass::ParenClose => 0,
                _ => 2,
            },
        };
        if step == 0 {
            break;
        } else if step == 2 {
            return Err(stream.error(SyntaxError::ExpectedParameter));
        }
        let arg = parse_name(stream)?;
        stream.maybe(TokenClass::Comma);
        proof {
            lemma_prepend_push(names_view(out@), arg@, parsed_names(ts, stream@.index as int));
            assert(names_view(out@.push(arg)) =~= names_view(out@).push(arg@));
        }
        out.push(arg);
    }
    proof {
        lemma_prepend_end(names_view(out@), stream@.index as int);
    }
    stream.expect(TokenClass::ParenClose)?;
    Ok(out)
}

impl FunctionDeclare {
    pub fn parse(stream: &mut Stream) -> (r: Result<FunctionDeclare, ParseError>)
        requires
            old(stream)@.wf(),
        ensures
            consumed(old(stream)@, final(stream)@, r),
            agrees(
                parsed_fun(old(stream)@.tokens, old(stream)@.index as int),
                match r {
                    Ok(x) => Some(node_view(Node::FunDecl(x))),
                    Err(_) => None,
                },
                final(stream)@.index,
            ),
        decreases old(stream)@.remaining(), 8nat,
    {
        stream.maybe(keyword("fun"));
        let name = parse_name(stream)?;
        let args = parse_func_args(stream)?;
        let body = parse_block(stream)?;
        Ok(FunctionDeclare { name, args, body: Rc::new(body) })
    }
}

/// Parses expressions up to the closing token, each followed by an optional
/// comma.
pub fn parse_list(stream: &mut Stream, close: TokenClass) -> (r: Result<Vec<Node>, ParseError>)
    requires
        old(stream)@.wf(),
    ensures
        old(stream)@.reaches(final(stream)@),
        r is Ok ==> final(stream)@.current() is None || final(stream)@.current_is(close@),
        agrees(
            parsed_list(old(stream)@.tokens, old(stream)@.index as int, close@),
            match r {
                Ok(v) => Some(nodes_view(v@)),
                Err(_) => None,
            },
            final(stream)@.index,
        ),
    decreases old(stream)@.remaining(), 7nat,
{
    let mut out: Vec<Node> = Vec::new();
    let ghost ts = stream@.tokens;
    let ghost p0 = stream@.index as int;
    proof {
        lemma_prepend_empty(parsed_list(ts, p0, close@));
    }
    loop
        invariant
            stream@.wf(),
            old(stream)@.reaches(stream@),
            ts == stream@.tokens,
            p0 == old(stream)@.index,
            parsed_list(ts, p0, close@) == prepend(
                nodes_view(out@),
                parsed_list(ts, stream@.index as int, close@),
            ),
        ensures
            stream@.wf(),
            old(stream)@.reaches(stream@),
            stream@.current() is None || stream@.current_is(close@),
            parsed_list(ts, p0, close@) == prepend(
                nodes_view(out@),
                parsed_list(ts, stream@.index as int, close@),
            ),
        decreases stream@.remaining(),
    {
        let stop = match stream.peek() {
            None => true,
            Some(t) => t.data.same(&close),
        };
        if stop {
            break;
        }
        let ghost p = stream@.index as int;
        let e = match parse_expr(stream) {
            Ok(e) => e,
            Err(err) => {
                proof {
                    assert(parsed_list(ts, p, close@) is None);
                }
                return Err(err);
            },
        };
        stream.maybe(TokenClass::Comma);
        proof {
            lemma_prepend_push(
                nodes_view(out@),
                node_view(e),
                parsed_list(ts, stream@.index as int, close@),
            );
            lemma_nodes_view_push(out@, e);
        }
        out.push(e);
    }
    proof {
        lemma_prepend_end(nodes_view(out@), stream@.index as int);
    }
    Ok(out)
}

pub fn parse_call_args(stream: &mut Stream) -> (r: Result<Vec<Node>, ParseError>)
    requires
        old(stream)@.wf(),
    ensures
        consumed(old(stream)@, final(stream)@, r),
        agrees(
            parsed_args(old(stream)@.tokens, old(stream)@.index as int),
            match r {
                Ok(v) => Some(nodes_view(v@)),
                Err(_) => None,
            },
            final(stream)@.index,
        ),
    decreases old(stream)@.remaining(), 1nat,
{
    stream.expect(TokenClass::ParenOpen)?;
    let out = parse_list(stream, TokenClass::ParenClose)?;
    stream.expect(TokenClass::ParenClose)?;
    Ok(out)
}

impl FunctionCall {
    pub fn parse(stream: &mut Stream) -> (r: Result<FunctionCall, ParseError>)
        requires
            old(stream)@.wf(),
        ensures
            consumed(old(stream)@, final(stream)@, r),
            match parsed_call(old(stream)@.tokens, old(stream)@.index as int) {
                Some((name, args, q)) => r matches Ok(c) && c.name@ == name && nodes_view(c.args@)
                    == args && final(stream)@.index == q,
                None => r is Err,
            },
        decreases old(stream)@.remaining(), 2nat,
    {
        let name = parse_name(stream)?;
        let args = parse_call_args(stream)?;
        Ok(FunctionCall { name, args })
    }
}

impl ModAccess {
    pub fn parse(stream: &mut Stream) -> (r: Result<ModAccess, ParseError>)
        requires
            old(stream)@.wf(),
        ensures
            consumed(old(stream)@, final(stream)@, r),
            agrees(
                parsed_module(old(stream)@.tokens, old(stream)@.index as int),
                match r {
                    Ok(x) => Some(node_view(Node::Module(x))),
                    Err(_) => None,
                },
                final(stream)@.index,
            ),
        decreases old(stream)@.remaining(), 3nat,
    {
        let mod_name = parse_name(stream)?;
        stream.maybe(TokenClass::Namespace);
        let member = FunctionCall::parse(stream)?;
        Ok(ModAccess { mod_name, member })
    }
}

impl ImportStat {
    pub fn parse(stream: &mut Stream) -> (r: Result<ImportStat, ParseError>)
        requires
            old(stream)@.wf(),
        ensures
            consumed(old(stream)@, final(stream)@, r),
            agrees(
                parsed_import(old(stream)@.tokens, old(stream)@.index as int),
                match r {
                    Ok(x) => Some(node_view(Node::Import(x))),
                    Err(_) => None,
                },
                final(stream)@.index,
            ),
        decreases old(stream)@.remaining(), 8nat,
    {
        stream.maybe(keyword("import"));
        let mod_name = parse_name(stream)?;
        stream.expect(TokenClass::EndOfStatement)?;
        Ok(ImportStat { mod_name })
    }
}

impl VariableAssign {
    pub fn parse(stream: &mut Stream) -> (r: Result<VariableAssign, ParseError>)
        requires
            old(stream)@.wf(),
        ensures
            consumed(old(stream)@, final(stream)@, r),
            agrees(
                parsed_assign(old(stream)@.tokens, old(stream)@.index as int),
                match r {
                    Ok(x) => Some(node_view(Node::Assign(x))),
                    Err(_) => None,
                },
                final(stream)@.index,
            ),
            r matches Ok(a) ==> is_assign_class(Some(a.op@)),
        decreases old(stream)@.remaining(), 8nat,
    {
        let var_name = parse_name(stream)?;
        let op = match stream.pop() {
            None => {
                return Err(stream.error(SyntaxError::EndOfStream));
            },
            Some(token) => match token.data {
                TokenClass::AssignOp(x) => TokenClass::AssignOp(x),
                TokenClass::Assign => TokenClass::Assign,
                TokenClass::Define => TokenClass::Define,
                _ => {
                    return Err(stream.error(SyntaxError::ExpectedAssignment));
                },
            },
        };
        let expr = parse_expr(stream)?;
        stream.expect(TokenClass::EndOfStatement)?;
        Ok(VariableAssign { var_name, op, expr: Box::new(expr) })
    }
}

impl ArrayLiteral {
    pub fn parse(stream: &mut Stream) -> (r: Result<ArrayLiteral, ParseError>)
        requires
            old(stream)@.wf(),
        ensures
            consumed(old(stream)@, final(stream)@, r),
            agrees(
                parsed_array(old(stream)@.tokens, old(stream)@.index as int),
                match r {
                    Ok(x) => Some(node_view(Node::Array(x))),
                    Err(_) => None,
                },
                final(stream)@.index,
            ),
        decreases old(stream)@.remaining(), 3nat,
    {
        stream.expect(TokenClass::BracketOpen)?;
        let elem = parse_list(stream, TokenClass::BracketClose)?;
        stream.expect(TokenClass::BracketClose)?;
        Ok(ArrayLiteral { elem })
    }
}

impl ExprStat {
    pub fn parse(stream: &mut Stream) -> (r: Result<ExprStat, ParseError>)
        requires
            old(stream)@.wf(),
        ensures
            consumed(old(stream)@, final(stream)@, r),
            agrees(
                parsed_expr_stat(old(stream)@.tokens, old(stream)@.index as int),
                match r {
                    Ok(x) => Some(node_view(Node::Expr(x))),
                    Err(_) => None,
                },
                final(stream)@.index,
            ),
        decreases old(stream)@.remaining(), 8nat,
    {
        let expr = parse_expr(stream)?;
        stream.expect(TokenClass::EndOfStatement)?;
        Ok(ExprStat { expr: Box::new(expr) })
    }
}

pub fn parse_expr(stream: &mut Stream) -> (r: Result<Node, ParseError>)
    requires
        old(stream)@.wf(),
    ensures
        consumed(old(stream)@, final(stream)@, r),
        agrees(parsed_expr(old(stream)@.tokens, old(stream)@.index as int), node_of(r), final(stream)@.index),
    decreases old(stream)@.remaining(), 6nat,
{
    parse_expr_prec(stream, 0)
}


/// What the current token makes of a primary expression.
enum Primary {
    Unary(String),
    Array,
    Int(u64),
    Float(String),
    Str(String),
    Call,
    Module,
    Var(String),
    Paren,
    Invalid,
}

fn is_unary_op(op: &String) -> (r: bool)
    ensures
        r == (op@ == "!"@ || op@ == "-"@),
{
    text_is(op.as_str(), "!") || text_is(op.as_str(), "-")
}

/// Parses a unary operator and its operand, an array, a literal, a variable, a
/// function call, a module access or a parenthesised expression.
pub fn parse_primary_expr(stream: &mut Stream) -> (r: Result<Node, ParseError>)
    requires
        old(stream)@.wf(),
    ensures
        consumed(old(stream)@, final(stream)@, r),
        agrees(parsed_primary(old(stream)@.tokens, old(stream)@.index as int), node_of(r), final(stream)@.index),
    decreases old(stream)@.remaining(), 4nat,
{
    let primary = match stream.peek() {
        None => {
            return Err(stream.error(SyntaxError::EndOfStream));
        },
        Some(token) => match &token.data {
            TokenClass::Operator(op) => if is_unary_op(op) {
                Primary::Unary(op.clone())
            } else {
                Primary::Invalid
            },
            TokenClass::BracketOpen => Primary::Array,
            TokenClass::Integer(x) => Primary::Int(*x),
            TokenClass::Float(x) => Primary::Float(x.clone()),
            TokenClass::String(x) => Primary::Str(x.clone()),
            TokenClass::Identifier(x) => if lookhead_fn_call(stream) {
                Primary::Call
            } else if lookhead_mod(stream) {
                Primary::Module
            } else {
                Primary::Var(x.clone())
            },
            TokenClass::ParenOpen => Primary::Paren,
            _ => Primary::Invalid,
        },
    };
    match primary {
        Primary::Unary(op) => {
            stream.next();
            let operand = parse_expr_prec(stream, 9)?;
            Ok(Node::Unary(UnaryExpr { op, operand: Box::new(operand) }))
        },
        Primary::Array => Ok(Node::Array(ArrayLiteral::parse(stream)?)),
        Primary::Int(value) => {
            stream.next();
            Ok(Node::Int(IntLiteral { value }))
        },
        Primary::Float(text) => {
            stream.next();
            Ok(Node::Float(FloatLiteral { text }))
        },
        Primary::Str(value) => {
            stream.next();
            Ok(Node::Str(StrLiteral { value }))
        },
        Primary::Call => Ok(Node::Call(FunctionCall::parse(stream)?)),
        Primary::Module => Ok(Node::Module(ModAccess::parse(stream)?)),
        Primary::Var(name) => {
            stream.next();
            Ok(Node::Var(Variable { name }))
        },
        Primary::Paren => {
            stream.next();
            let expr = parse_expr(stream)?;
            stream.expect(TokenClass::ParenClose)?;
            Ok(expr)
        },
        Primary::Invalid => Err(stream.error(SyntaxError::InvalidPrimary)),
    }
}

/// Precedence climbing: a primary expression, then each following binary
/// operator that binds at least as strongly as `precedence`, with a right
/// operand parsed at the operator's own precedence.
pub fn parse_expr_prec(stream: &mut Stream, precedence: u32) -> (r: Result<Node, ParseError>)
    requires
        old(stream)@.wf(),
    ensures
        consumed(old(stream)@, final(stream)@, r),
        agrees(parsed_prec(old(stream)@.tokens, old(stream)@.index as int, precedence), node_of(r), final(stream)@.index),
    decreases old(stream)@.remaining(), 5nat,
{
    let mut left = parse_primary_expr(stream)?;
    let ghost ts = stream@.tokens;
    let ghost p0 = old(stream)@.index as int;
    loop
        invariant
            stream@.wf(),
            old(stream)@.reaches(stream@),
            stream@.index > old(stream)@.index,
            ts == stream@.tokens,
            p0 == old(stream)@.index,
            parsed_prec(ts, p0, precedence) == climb(
                ts,
                stream@.index as int,
                precedence,
                node_view(left),
            ),
        ensures
            stream@.wf(),
            old(stream)@.reaches(stream@),
            stream@.index > old(stream)@.index,
            parsed_prec(ts, p0, precedence) == Some((node_view(left), stream@.index as int)),
        decreases stream@.remaining(),
    {
        let op = match stream.peek() {
            None => None,
            Some(token) => match &token.data {
                TokenClass::Operator(op) => Some(op.clone()),
                _ => None,
            },
        };
        let op = match op {
            None => {
                break;
            },
            Some(op) => op,
        };
        let op_prec = get_op_precedence(op.as_str());
        if precedence > op_prec {
            break;
        }
        stream.next();
        let right = parse_expr_prec(stream, op_prec)?;
        left = Node::Binary(BinaryExpr { op, left: Box::new(left), right: Box::new(right) });
    }
    Ok(left)
}


/// A syntax tree with its text as sequences of characters.
pub enum NodeV {
    Block(Seq<NodeV>),
    Import(Seq<char>),
    Assign(Seq<char>, ClassView, Box<NodeV>),
    Binary(Seq<char>, Box<NodeV>, Box<NodeV>),
    Unary(Seq<char>, Box<NodeV>),
    Int(u64),
    Float(Seq<char>),
    Str(Seq<char>),
    Var(Seq<char>),
    Call(Seq<char>, Seq<NodeV>),
    Module(Seq<char>, Seq<char>, Seq<NodeV>),
    Array(Seq<NodeV>),
    Return(Option<Box<NodeV>>),
    FunDecl(Seq<char>, Seq<Seq<char>>, Seq<NodeV>),
    Expr(Box<NodeV>),
    If(Box<NodeV>, Seq<NodeV>, Option<Box<NodeV>>),
    While(Box<NodeV>, Seq<NodeV>),
    For(Seq<char>, Box<NodeV>, Seq<NodeV>),
}

pub open spec fn names_view(s: Seq<String>) -> Seq<Seq<char>> {
    s.map_values(|x: String| x@)
}

pub open spec fn node_view(n: Node) -> NodeV
    decreases n,
{
    match n {
        Node::Block(b) => NodeV::Block(nodes_view(b.nodes@)),
        Node::Import(i) => NodeV::Import(i.mod_name@),
        Node::Assign(a) => NodeV::Assign(a.var_name@, a.op@, Box::new(node_view(*a.expr))),
        Node::Binary(b) => NodeV::Binary(b.op@, Box::new(node_view(*b.left)), Box::new(node_view(*b.right))),
        Node::Unary(u) => NodeV::Unary(u.op@, Box::new(node_view(*u.operand))),
        Node::Int(l) => NodeV::Int(l.value),
        Node::Float(l) => NodeV::Float(l.text@),
        Node::Str(l) => NodeV::Str(l.value@),
        Node::Var(v) => NodeV::Var(v.name@),
        Node::Call(c) => NodeV::Call(c.name@, nodes_view(c.args@)),
        Node::Module(m) => NodeV::Module(m.mod_name@, m.member.name@, nodes_view(m.member.args@)),
        Node::Array(a) => NodeV::Array(nodes_view(a.elem@)),
        Node::Return(r) => NodeV::Return(
            match r.expr {
                Some(e) => Some(Box::new(node_view(*e))),
                None => None,
            },
        ),
        Node::FunDecl(d) => NodeV::FunDecl(d.name@, names_view(d.args@), nodes_view(d.body.nodes@)),
        Node::Expr(e) => NodeV::Expr(Box::new(node_view(*e.expr))),
        Node::If(i) => NodeV::If(
            Box::new(node_view(*i.condition)),
            nodes_view(i.if_block.nodes@),
            match i.else_block {
                Some(e) => Some(Box::new(node_view(*e))),
                None => None,
            },
        ),
        Node::While(w) => NodeV::While(Box::new(node_view(*w.condition)), nodes_view(w.body.nodes@)),
        Node::For(f) => NodeV::For(f.elem_name@, Box::new(node_view(*f.array)), nodes_view(f.body.nodes@)),
    }
}

pub open spec fn nodes_view(s: Seq<Node>) -> Seq<NodeV>
    decreases s,
{
    if s.len() == 0 {
        Seq::empty()
    } else {
        nodes_view(s.drop_last()).push(node_view(s.last()))
    }
}


/// The parse agrees with the grammar: where the grammar gives a result and an
/// end position, the parse gives that result and stops there; where the
/// grammar gives nothing, the parse fails.
pub open spec fn agrees<T>(g: Option<(T, int)>, r: Option<T>, end: nat) -> bool {
    match g {
        Some((v, q)) => r == Some(v) && end == q,
        None => r is None,
    }
}

pub open spec fn prepend<T>(pre: Seq<T>, g: Option<(Seq<T>, int)>) -> Option<(Seq<T>, int)> {
    match g {
        Some((s, q)) => Some((pre + s, q)),
        None => None,
    }
}

proof fn lemma_prepend_push<T>(pre: Seq<T>, x: T, g: Option<(Seq<T>, int)>)
    ensures
        prepend(pre, prepend(seq![x], g)) == prepend(pre.push(x), g),
{
    if let Some((s, q)) = g {
        assert(pre + (seq![x] + s) =~= pre.push(x) + s);
    }
}

proof fn lemma_prepend_empty<T>(g: Option<(Seq<T>, int)>)
    ensures
        prepend(Seq::<T>::empty(), g) == g,
{
    if let Some((s, q)) = g {
        assert(Seq::<T>::empty() + s =~= s);
    }
}

proof fn lemma_prepend_end<T>(pre: Seq<T>, q: int)
    ensures
        prepend(pre, Some((Seq::<T>::empty(), q))) == Some((pre, q)),
{
    assert(pre + Seq::<T>::empty() =~= pre);
}

proof fn lemma_nodes_view_push(s: Seq<Node>, n: Node)
    ensures
        nodes_view(s.push(n)) == nodes_view(s).push(node_view(n)),
{
    assert(s.push(n).drop_last() =~= s);
}

pub open spec fn node_of(r: Result<Node, ParseError>) -> Option<NodeV> {
    match r {
        Ok(n) => Some(node_view(n)),
        Err(_) => None,
    }
}

/// The class of the token at position `p`, if there is one.
pub open spec fn tok(ts: Seq<TokenView>, p: int) -> Option<ClassView> {
    if 0 <= p < ts.len() {
        Some(ts[p].class)
    } else {
        None
    }
}

/// The position after a required token of class `c` at `p`.
pub open spec fn after(ts: Seq<TokenView>, p: int, c: ClassView) -> Option<int> {
    if tok(ts, p) == Some(c) {
        Some(p + 1)
    } else {
        None
    }
}

/// The position after an optional token of class `c` at `p`.
pub open spec fn skip(ts: Seq<TokenView>, p: int, c: ClassView) -> int {
    if tok(ts, p) == Some(c) {
        p + 1
    } else {
        p
    }
}

pub open spec fn advances(ts: Seq<TokenView>, p: int, q: int) -> bool {
    p < q <= ts.len()
}

pub open spec fn parsed_name(ts: Seq<TokenView>, p: int) -> Option<(Seq<char>, int)> {
    match tok(ts, p) {
        Some(ClassView::Identifier(n)) => Some((n, p + 1)),
        _ => None,
    }
}

/// Statements up to a `}` or the end of the tokens.
pub open spec fn parsed_seq(ts: Seq<TokenView>, p: int) -> Option<(Seq<NodeV>, int)>
    decreases ts.len() - p, 10nat,
{
    if p < 0 || p > ts.len() {
        None
    } else if tok(ts, p) is None || tok(ts, p) == Some(ClassView::CurlyClose) {
        Some((Seq::empty(), p))
    } else {
        match parsed_statement(ts, p) {
            Some((n, p1)) => if advances(ts, p, p1) {
                match parsed_seq(ts, p1) {
                    Some((rest, q)) => Some((seq![n] + rest, q)),
                    None => None,
                }
            } else {
                None
            },
            None => None,
        }
    }
}

/// `{`, statements, `}`.
pub open spec fn parsed_block(ts: Seq<TokenView>, p: int) -> Option<(Seq<NodeV>, int)>
    decreases ts.len() - p, 7nat,
{
    if p < 0 || p > ts.len() {
        None
    } else {
        match after(ts, p, ClassView::CurlyOpen) {
            Some(p1) => match parsed_seq(ts, p1) {
                Some((b, p2)) => match after(ts, p2, ClassView::CurlyClose) {
                    Some(q) => Some((b, q)),
                    None => None,
                },
                None => None,
            },
            None => None,
        }
    }
}

/// `(`, an expression, `)`.
pub open spec fn parsed_condition(ts: Seq<TokenView>, p: int) -> Option<(NodeV, int)>
    decreases ts.len() - p, 7nat,
{
    if p < 0 || p > ts.len() {
        None
    } else {
        match after(ts, p, ClassView::ParenOpen) {
            Some(p1) => match parsed_expr(ts, p1) {
                Some((e, p2)) => match after(ts, p2, ClassView::ParenClose) {
                    Some(q) => Some((e, q)),
                    None => None,
                },
                None => None,
            },
            None => None,
        }
    }
}

/// The statement that the token at `p` begins.
pub open spec fn parsed_statement(ts: Seq<TokenView>, p: int) -> Option<(NodeV, int)>
    decreases ts.len() - p, 9nat,
{
    if p < 0 || p > ts.len() {
        None
    } else {
        match statement_kind(StreamView { tokens: ts, index: p as nat, last_line: 0 }) {
            StatKind::If => parsed_if(ts, p),
            StatKind::While => parsed_while(ts, p),
            StatKind::For => parsed_for(ts, p),
            StatKind::Fun => parsed_fun(ts, p),
            StatKind::Return => parsed_return(ts, p),
            StatKind::Import => parsed_import(ts, p),
            StatKind::Assign => parsed_assign(ts, p),
            StatKind::Expr => parsed_expr_stat(ts, p),
            StatKind::Invalid => None,
        }
    }
}

/// `if (c) { .. }`, then optionally `elif` and another `if` without its
/// keyword, or `else` and a block.
pub open spec fn parsed_if(ts: Seq<TokenView>, p: int) -> Option<(NodeV, int)>
    decreases ts.len() - p, 8nat,
{
    if p < 0 || p > ts.len() {
        None
    } else {
        let p0 = skip(ts, p, ClassView::Keyword("if"@));
        match parsed_condition(ts, p0) {
            Some((c, p1)) => if advances(ts, p0, p1) {
                match parsed_block(ts, p1) {
                    Some((b, p2)) => if advances(ts, p1, p2) {
                        match tok(ts, p2) {
                            Some(ClassView::Keyword(k)) => if k == "elif"@ {
                                match parsed_if(ts, p2 + 1) {
                                    Some((e, q)) => Some(
                                        (NodeV::If(Box::new(c), b, Some(Box::new(e))), q),
                                    ),
                                    None => None,
                                }
                            } else if k == "else"@ {
                                match parsed_block(ts, p2 + 1) {
                                    Some((e, q)) => Some(
                                        (
                                            NodeV::If(
                                                Box::new(c),
                                                b,
                                                Some(Box::new(NodeV::Block(e))),
                                            ),
                                            q,
                                        ),
                                    ),
                                    None => None,
                                }
                            } else {
                                Some((NodeV::If(Box::new(c), b, None), p2))
                            },
                            _ => Some((NodeV::If(Box::new(c), b, None), p2)),
                        }
                    } else {
                        None
                    },
                    None => None,
                }
            } else {
                None
            },
            None => None,
        }
    }
}

/// `while (c) { .. }`.
pub open spec fn parsed_while(ts: Seq<TokenView>, p: int) -> Option<(NodeV, int)>
    decreases ts.len() - p, 8nat,
{
    if p < 0 || p > ts.len() {
        None
    } else {
        let p0 = skip(ts, p, ClassView::Keyword("while"@));
        match parsed_condition(ts, p0) {
            Some((c, p1)) => if advances(ts, p0, p1) {
                match parsed_block(ts, p1) {
                    Some((b, q)) => Some((NodeV::While(Box::new(c), b), q)),
                    None => None,
                }
            } else {
                None
            },
            None => None,
        }
    }
}

/// `for (name) (array) { .. }`.
pub open spec fn parsed_for(ts: Seq<TokenView>, p: int) -> Option<(NodeV, int)>
    decreases ts.len() - p, 8nat,
{
    if p < 0 || p > ts.len() {
        None
    } else {
        let p0 = skip(ts, p, ClassView::Keyword("for"@));
        match after(ts, p0, ClassView::ParenOpen) {
            Some(p1) => match parsed_name(ts, p1) {
                Some((name, p2)) => match after(ts, p2, ClassView::ParenClose) {
                    Some(p3) => match after(ts, p3, ClassView::ParenOpen) {
                        Some(p4) => match parsed_expr(ts, p4) {
                            Some((arr, p5)) => if advances(ts, p4, p5) {
                                match after(ts, p5, ClassView::ParenClose) {
                                    Some(p6) => match parsed_block(ts, p6) {
                                        Some((b, q)) => Some(
                                            (NodeV::For(name, Box::new(arr), b), q),
                                        ),
                                        None => None,
                                    },
                                    None => None,
                                }
                            } else {
                                None
                            },
                            None => None,
                        },
                        None => None,
                    },
                    None => None,
                },
                None => None,
            },
            None => None,
        }
    }
}

/// `return;` or `return expr;`.
pub open spec fn parsed_return(ts: Seq<TokenView>, p: int) -> Option<(NodeV, int)>
    decreases ts.len() - p, 8nat,
{
    if p < 0 || p > ts.len() {
        None
    } else {
        let p0 = skip(ts, p, ClassView::Keyword("return"@));
        match tok(ts, p0) {
            None => None,
            Some(ClassView::EndOfStatement) => Some((NodeV::Return(None), p0 + 1)),
            Some(_) => match parsed_expr(ts, p0) {
                Some((e, p1)) => match after(ts, p1, ClassView::EndOfStatement) {
                    Some(q) => Some((NodeV::Return(Some(Box::new(e))), q)),
                    None => None,
                },
                None => None,
            },
        }
    }
}

/// Names, each followed by an optional comma, up to a `)` or the end.
pub open spec fn parsed_names(ts: Seq<TokenView>, p: int) -> Option<(Seq<Seq<char>>, int)>
    decreases ts.len() - p,
{
    if p < 0 || p > ts.len() {
        None
    } else {
        match tok(ts, p) {
            None => Some((Seq::empty(), p)),
            Some(ClassView::ParenClose) => Some((Seq::empty(), p)),
            Some(ClassView::Identifier(n)) => {
                let p1 = skip(ts, p + 1, ClassView::Comma);
                match parsed_names(ts, p1) {
                    Some((rest, q)) => Some((seq![n] + rest, q)),
                    None => None,
                }
            },
            _ => None,
        }
    }
}

/// `(`, parameter names, `)`.
pub open spec fn parsed_params(ts: Seq<TokenView>, p: int) -> Option<(Seq<Seq<char>>, int)> {
    match after(ts, p, ClassView::ParenOpen) {
        Some(p1) => match parsed_names(ts, p1) {
            Some((names, p2)) => match after(ts, p2, ClassView::ParenClose) {
                Some(q) => Some((names, q)),
                None => None,
            },
            None => None,
        },
        None => None,
    }
}

/// `fun name(params) { .. }`.
pub open spec fn parsed_fun(ts: Seq<TokenView>, p: int) -> Option<(NodeV, int)>
    decreases ts.len() - p, 8nat,
{
    if p < 0 || p > ts.len() {
        None
    } else {
        let p0 = skip(ts, p, ClassView::Keyword("fun"@));
        match parsed_name(ts, p0) {
            Some((name, p1)) => match parsed_params(ts, p1) {
                Some((params, p2)) => if advances(ts, p, p2) {
                    match parsed_block(ts, p2) {
                        Some((b, q)) => Some((NodeV::FunDecl(name, params, b), q)),
                        None => None,
                    }
                } else {
                    None
                },
                None => None,
            },
            None => None,
        }
    }
}

/// `import name;`.
pub open spec fn parsed_import(ts: Seq<TokenView>, p: int) -> Option<(NodeV, int)> {
    let p0 = skip(ts, p, ClassView::Keyword("import"@));
    match parsed_name(ts, p0) {
        Some((name, p1)) => match after(ts, p1, ClassView::EndOfStatement) {
            Some(q) => Some((NodeV::Import(name), q)),
            None => None,
        },
        None => None,
    }
}

/// `name op expr;` with `op` one of `:=`, `=` and the assigning operators.
pub open spec fn parsed_assign(ts: Seq<TokenView>, p: int) -> Option<(NodeV, int)>
    decreases ts.len() - p, 8nat,
{
    if p < 0 || p > ts.len() {
        None
    } else {
        match parsed_name(ts, p) {
            Some((name, p1)) => if is_assign_class(tok(ts, p1)) {
                match parsed_expr(ts, p1 + 1) {
                    Some((e, p2)) => match after(ts, p2, ClassView::EndOfStatement) {
                        Some(q) => Some((NodeV::Assign(name, tok(ts, p1)->0, Box::new(e)), q)),
                        None => None,
                    },
                    None => None,
                }
            } else {
                None
            },
            None => None,
        }
    }
}

/// `expr;`.
pub open spec fn parsed_expr_stat(ts: Seq<TokenView>, p: int) -> Option<(NodeV, int)>
    decreases ts.len() - p, 8nat,
{
    if p < 0 || p > ts.len() {
        None
    } else {
        match parsed_expr(ts, p) {
            Some((e, p1)) => match after(ts, p1, ClassView::EndOfStatement) {
                Some(q) => Some((NodeV::Expr(Box::new(e)), q)),
                None => None,
            },
            None => None,
        }
    }
}

/// Expressions, each followed by an optional comma, up to the closing class
/// or the end.
pub open spec fn parsed_list(ts: Seq<TokenView>, p: int, close: ClassView) -> Option<
    (Seq<NodeV>, int),
>
    decreases ts.len() - p, 7nat,
{
    if p < 0 || p > ts.len() {
        None
    } else if tok(ts, p) is None || tok(ts, p) == Some(close) {
        Some((Seq::empty(), p))
    } else {
        match parsed_expr(ts, p) {
            Some((e, p1)) => if advances(ts, p, p1) {
                match parsed_list(ts, skip(ts, p1, ClassView::Comma), close) {
                    Some((rest, q)) => Some((seq![e] + rest, q)),
                    None => None,
                }
            } else {
                None
            },
            None => None,
        }
    }
}

/// `(`, arguments, `)`.
pub open spec fn parsed_args(ts: Seq<TokenView>, p: int) -> Option<(Seq<NodeV>, int)>
    decreases ts.len() - p, 1nat,
{
    if p < 0 || p > ts.len() {
        None
    } else {
        match after(ts, p, ClassView::ParenOpen) {
            Some(p1) => match parsed_list(ts, p1, ClassView::ParenClose) {
                Some((args, p2)) => match after(ts, p2, ClassView::ParenClose) {
                    Some(q) => Some((args, q)),
                    None => None,
                },
                None => None,
            },
            None => None,
        }
    }
}

/// `name(args)`: the name, the arguments and the position after.
pub open spec fn parsed_call(ts: Seq<TokenView>, p: int) -> Option<(Seq<char>, Seq<NodeV>, int)>
    decreases ts.len() - p, 2nat,
{
    if p < 0 || p > ts.len() {
        None
    } else {
        match parsed_name(ts, p) {
            Some((name, p1)) => match parsed_args(ts, p1) {
                Some((args, q)) => Some((name, args, q)),
                None => None,
            },
            None => None,
        }
    }
}

/// `module::name(args)`; the `::` may be left out.
pub open spec fn parsed_module(ts: Seq<TokenView>, p: int) -> Option<(NodeV, int)>
    decreases ts.len() - p, 3nat,
{
    if p < 0 || p > ts.len() {
        None
    } else {
        match parsed_name(ts, p) {
            Some((m, p1)) => match parsed_call(ts, skip(ts, p1, ClassView::Namespace)) {
                Some((name, args, q)) => Some((NodeV::Module(m, name, args), q)),
                None => None,
            },
            None => None,
        }
    }
}

/// `[`, elements, `]`.
pub open spec fn parsed_array(ts: Seq<TokenView>, p: int) -> Option<(NodeV, int)>
    decreases ts.len() - p, 3nat,
{
    if p < 0 || p > ts.len() {
        None
    } else {
        match after(ts, p, ClassView::BracketOpen) {
            Some(p1) => match parsed_list(ts, p1, ClassView::BracketClose) {
                Some((elems, p2)) => match after(ts, p2, ClassView::BracketClose) {
                    Some(q) => Some((NodeV::Array(elems), q)),
                    None => None,
                },
                None => None,
            },
            None => None,
        }
    }
}

pub open spec fn parsed_expr(ts: Seq<TokenView>, p: int) -> Option<(NodeV, int)>
    decreases ts.len() - p, 6nat,
{
    if p < 0 || p > ts.len() {
        None
    } else {
        parsed_prec(ts, p, 0)
    }
}

/// A primary expression, then the binary operators that bind at least as
/// strongly as `prec`.
pub open spec fn parsed_prec(ts: Seq<TokenView>, p: int, prec: u32) -> Option<(NodeV, int)>
    decreases ts.len() - p, 5nat,
{
    if p < 0 || p > ts.len() {
        None
    } else {
        match parsed_primary(ts, p) {
            Some((left, p1)) => if advances(ts, p, p1) {
                climb(ts, p1, prec, left)
            } else {
                None
            },
            None => None,
        }
    }
}

/// Precedence climbing from `left` at `p`: an operator of precedence at
/// least `prec` takes `left` and a right operand parsed at its own
/// precedence, and the climb goes on from there.
pub open spec fn climb(ts: Seq<TokenView>, p: int, prec: u32, left: NodeV) -> Option<(NodeV, int)>
    decreases ts.len() - p, 5nat,
{
    if p < 0 || p > ts.len() {
        None
    } else {
        match tok(ts, p) {
            Some(ClassView::Operator(op)) => if prec > precedence(op) {
                Some((left, p))
            } else {
                match parsed_prec(ts, p + 1, precedence(op)) {
                    Some((right, p2)) => if advances(ts, p + 1, p2) {
                        climb(ts, p2, prec, NodeV::Binary(op, Box::new(left), Box::new(right)))
                    } else {
                        None
                    },
                    None => None,
                }
            },
            _ => Some((left, p)),
        }
    }
}

/// A unary operator and its operand, an array, a literal, a call, a module
/// access, a variable or a parenthesised expression.
pub open spec fn parsed_primary(ts: Seq<TokenView>, p: int) -> Option<(NodeV, int)>
    decreases ts.len() - p, 4nat,
{
    if p < 0 || p > ts.len() {
        None
    } else {
        match tok(ts, p) {
            Some(ClassView::Operator(op)) => if op == "!"@ || op == "-"@ {
                match parsed_prec(ts, p + 1, 9) {
                    Some((e, q)) => Some((NodeV::Unary(op, Box::new(e)), q)),
                    None => None,
                }
            } else {
                None
            },
            Some(ClassView::BracketOpen) => parsed_array(ts, p),
            Some(ClassView::Integer(x)) => Some((NodeV::Int(x), p + 1)),
            Some(ClassView::Float(t)) => Some((NodeV::Float(t), p + 1)),
            Some(ClassView::Str(t)) => Some((NodeV::Str(t), p + 1)),
            Some(ClassView::Identifier(x)) => if tok(ts, p + 1) == Some(ClassView::ParenOpen) {
                match parsed_call(ts, p) {
                    Some((name, args, q)) => Some((NodeV::Call(name, args), q)),
                    None => None,
                }
            } else if tok(ts, p + 1) == Some(ClassView::Namespace) {
                parsed_module(ts, p)
            } else {
                Some((NodeV::Var(x), p + 1))
            },
            Some(ClassView::ParenOpen) => match parsed_expr(ts, p + 1) {
                Some((e, p1)) => match after(ts, p1, ClassView::ParenClose) {
                    Some(q) => Some((e, q)),
                    None => None,
                },
                None => None,
            },
            _ => None,
        }
    }
}

} // verus!
