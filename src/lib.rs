//! Front end and tree-walking evaluator of a small imperative scripting
//! language: source text is split into tokens, parsed into a syntax tree by
//! recursive descent with precedence climbing, and evaluated against a
//! mutable scope.

pub mod executor;
pub mod lexer;
pub mod parser;
pub mod pipeline;

pub use executor::{
    apply_binary_op, eval, eval_expr, eval_seq, output_line, render, render_int, truthiness, BinOp, Binding, Fun,
    FunBinding, Host, Nodeable, Obj, RuntimeError, Scope,
};
pub use lexer::{lex, LexError, ParseError, Stream, SyntaxError, Token, TokenClass};
pub use parser::{
    ArrayLiteral, BinaryExpr, ExprStat, FloatLiteral, ForStat, FunctionCall, FunctionDeclare,
    IfStat, ImportStat, IntLiteral, ModAccess, Node, ReturnStat, StatSeq, StrLiteral, UnaryExpr,
    Variable, VariableAssign, WhileStat,
};
pub use pipeline::{run, ScriptError};
