use std::rc::Rc;
use vstd::prelude::*;
use vstd::arithmetic::power::pow;
use crate::lexer::{text_is, ClassView, TokenClass};
use crate::parser::{
    names_view, node_view, nodes_view, ArrayLiteral, BinaryExpr, ExprStat, ForStat, FunctionCall, FunctionDeclare, IfStat, ModAccess, Node, NodeV,
    ReturnStat, StatSeq, UnaryExpr, Variable, VariableAssign, WhileStat,
};

verus! {

/// A runtime value. A float is held as the bit pattern of an IEEE-754
/// binary64 number; its arithmetic is done by the `Host`.
#[derive(Debug)]
pub enum Obj {
    /// No value was produced.
    Invalid,
    Int(i64),
    Float(u64),
    String(String),
    Array(Vec<Obj>),
    Bool(bool),
    Nil,
}

/// A value with its text as a sequence of characters.
pub enum ObjV {
    Invalid,
    Int(i64),
    Float(u64),
    Str(Seq<char>),
    Array(Seq<ObjV>),
    Bool(bool),
    Nil,
}

pub open spec fn obj_view(o: Obj) -> ObjV
    decreases o,
{
    match o {
        Obj::Invalid => ObjV::Invalid,
        Obj::Int(x) => ObjV::Int(x),
        Obj::Float(x) => ObjV::Float(x),
        Obj::String(s) => ObjV::Str(s@),
        Obj::Array(v) => ObjV::Array(objs_view(v@)),
        Obj::Bool(b) => ObjV::Bool(b),
        Obj::Nil => ObjV::Nil,
    }
}

pub open spec fn objs_view(s: Seq<Obj>) -> Seq<ObjV>
    decreases s,
{
    if s.len() == 0 {
        Seq::empty()
    } else {
        objs_view(s.drop_last()).push(obj_view(s.last()))
    }
}

/// A binary operator of the language.
#[derive(PartialEq, Eq, Structural, Clone, Copy, Debug)]
pub enum BinOp {
    Add,
    Sub,
    Mul,
    Div,
    Pow,
    Rem,
    Gt,
    Lt,
    Ge,
    Le,
    Eq,
    Ne,
    And,
    Or,
}

/// A runtime error; each one ends the program.
#[derive(Debug)]
pub enum RuntimeError {
    /// The operator does not apply to operands of these types.
    Mismatch(BinOp),
    /// A unary operator does not apply to an operand of this type.
    UnaryMismatch(String),
    /// Integer arithmetic left the 64-bit range.
    Overflow,
    DivisionByZero,
    /// `:=` on a name that the scope already holds.
    Redefinition(String),
    /// A name that the scope does not hold.
    Undefined(String),
    /// A call of a function that the scope does not hold.
    UndeclaredFunction(String),
    /// `for` over a value that is not an array.
    NotAnArray,
    /// A value with no text, such as the result of a statement, was rendered.
    RenderInvalid,
    /// A module member that does not exist.
    UnknownMember(String, String),
    /// A module member called with too few arguments.
    MissingArgument,
    /// A syntax tree that the parser does not produce.
    Malformed,
    /// The evaluation ran out of its step budget.
    OutOfSteps,
}

/// What the evaluator needs from its environment: floating-point arithmetic
/// on bit patterns, and a place to write output lines.
pub trait Host {
    /// The float that a decimal literal denotes.
    fn float_of_text(&mut self, text: &str) -> u64;

    /// `a op b` for an arithmetic operator (`+ - * / % ^`, the last one as
    /// a floating power).
    fn float_arith(&mut self, op: BinOp, a: u64, b: u64) -> u64;

    /// `a op b` for a comparison operator.
    fn float_compare(&mut self, op: BinOp, a: u64, b: u64) -> bool;

    /// The natural decimal text of a float.
    fn render_float(&mut self, a: u64) -> String;

    /// Writes one line of output.
    fn print_line(&mut self, line: String);
}

pub open spec fn is_arith(op: BinOp) -> bool {
    op == BinOp::Add || op == BinOp::Sub || op == BinOp::Mul || op == BinOp::Div || op
        == BinOp::Pow || op == BinOp::Rem
}

pub open spec fn is_compare(op: BinOp) -> bool {
    op == BinOp::Gt || op == BinOp::Lt || op == BinOp::Ge || op == BinOp::Le || op == BinOp::Eq
        || op == BinOp::Ne
}

/// The operator that the text names, if any.
pub open spec fn bin_op_of(op: Seq<char>) -> Option<BinOp> {
    if op == "+"@ {
        Some(BinOp::Add)
    } else if op == "-"@ {
        Some(BinOp::Sub)
    } else if op == "*"@ {
        Some(BinOp::Mul)
    } else if op == "/"@ {
        Some(BinOp::Div)
    } else if op == "^"@ {
        Some(BinOp::Pow)
    } else if op == "%"@ {
        Some(BinOp::Rem)
    } else if op == ">"@ {
        Some(BinOp::Gt)
    } else if op == "<"@ {
        Some(BinOp::Lt)
    } else if op == ">="@ {
        Some(BinOp::Ge)
    } else if op == "<="@ {
        Some(BinOp::Le)
    } else if op == "=="@ {
        Some(BinOp::Eq)
    } else if op == "!="@ {
        Some(BinOp::Ne)
    } else if op == "&&"@ {
        Some(BinOp::And)
    } else if op == "||"@ {
        Some(BinOp::Or)
    } else {
        None
    }
}

pub fn bin_op(op: &str) -> (r: Option<BinOp>)
    ensures
        r == bin_op_of(op@),
{
    if text_is(op, "+") {
        Some(BinOp::Add)
    } else if text_is(op, "-") {
        Some(BinOp::Sub)
    } else if text_is(op, "*") {
        Some(BinOp::Mul)
    } else if text_is(op, "/") {
        Some(BinOp::Div)
    } else if text_is(op, "^") {
        Some(BinOp::Pow)
    } else if text_is(op, "%") {
        Some(BinOp::Rem)
    } else if text_is(op, ">") {
        Some(BinOp::Gt)
    } else if text_is(op, "<") {
        Some(BinOp::Lt)
    } else if text_is(op, ">=") {
        Some(BinOp::Ge)
    } else if text_is(op, "<=") {
        Some(BinOp::Le)
    } else if text_is(op, "==") {
        Some(BinOp::Eq)
    } else if text_is(op, "!=") {
        Some(BinOp::Ne)
    } else if text_is(op, "&&") {
        Some(BinOp::And)
    } else if text_is(op, "||") {
        Some(BinOp::Or)
    } else {
        None
    }
}

pub open spec fn in_i64(v: int) -> bool {
    i64::MIN <= v <= i64::MAX
}

/// An integer result, or `Overflow` where it leaves the 64-bit range.
pub open spec fn int_result(v: int) -> Result<Obj, RuntimeError> {
    if in_i64(v) {
        Ok(Obj::Int(v as i64))
    } else {
        Err(RuntimeError::Overflow)
    }
}

/// The exponent that `^` uses: the right operand cut to its low 32 bits.
pub open spec fn exponent_of(y: i64) -> nat {
    (y as u32) as nat
}

proof fn lemma_pow_grows(x: int, n: nat, k: nat)
    requires
        x >= 2 || x <= -2,
        k >= 1,
    ensures
        abs(pow(x, n + k)) >= 2 * abs(pow(x, n)),
    decreases k,
{
    vstd::arithmetic::power::lemma_pow_adds(x, n, k);
    if k == 1 {
        vstd::arithmetic::power::lemma_pow1(x);
        assert(abs(pow(x, n) * x) == abs(pow(x, n)) * abs(x)) by (nonlinear_arith);
        assert(abs(pow(x, n)) * abs(x) >= 2 * abs(pow(x, n))) by (nonlinear_arith)
            requires
                abs(x) >= 2,
        ;
    } else {
        lemma_pow_grows(x, n, (k - 1) as nat);
        lemma_pow_grows(x, (n + k - 1) as nat, 1);
    }
}

pub open spec fn abs(v: int) -> int {
    if v < 0 {
        -v
    } else {
        v
    }
}

/// `x` to the power `e`, where the result is a 64-bit integer.
fn int_pow(x: i64, e: u32) -> (r: Option<i64>)
    ensures
        r is Some <==> in_i64(pow(x as int, e as nat)),
        r matches Some(v) ==> v == pow(x as int, e as nat),
{
    if x == 0 || x == 1 || x == -1 {
        let mut acc: i64 = 1;
        let mut i: u32 = 0;
        proof {
            vstd::arithmetic::power::lemma_pow0(x as int);
        }
        while i < e
            invariant
                i <= e,
                x == 0 || x == 1 || x == -1,
                acc == pow(x as int, i as nat),
                acc == 0 || acc == 1 || acc == -1,
            decreases e - i,
        {
            proof {
                vstd::arithmetic::power::lemma_pow_adds(x as int, i as nat, 1);
                vstd::arithmetic::power::lemma_pow1(x as int);
            }
            acc = acc * x;
            i = i + 1;
        }
        return Some(acc);
    }
    let mut acc: i64 = 1;
    let mut i: u32 = 0;
    proof {
        vstd::arithmetic::power::lemma_pow0(x as int);
    }
    while i < e
        invariant
            i <= e,
            x >= 2 || x <= -2,
            acc == pow(x as int, i as nat),
        decreases e - i,
    {
        proof {
            vstd::arithmetic::power::lemma_pow_adds(x as int, i as nat, 1);
            vstd::arithmetic::power::lemma_pow1(x as int);
        }
        match acc.checked_mul(x) {
            Some(v) => {
                acc = v;
            },
            None => {
                proof {
                    let p = pow(x as int, (i + 1) as nat);
                    assert(abs(p) >= 0x8000_0000_0000_0000);
                    if i + 1 < e {
                        lemma_pow_grows(x as int, (i + 1) as nat, (e - i - 1) as nat);
                    }
                }
                return None;
            },
        }
        i = i + 1;
    }
    Some(acc)
}


/// Integer arithmetic, comparison or a type error, as `op` applies to two
/// integers.
pub open spec fn int_outcome(op: BinOp, x: i64, y: i64) -> Result<Obj, RuntimeError> {
    match op {
        BinOp::Add => int_result(x + y),
        BinOp::Sub => int_result(x - y),
        BinOp::Mul => int_result(x * y),
        BinOp::Div => match x.checked_div(y) {
            Some(v) => Ok(Obj::Int(v)),
            None => if y == 0 {
                Err(RuntimeError::DivisionByZero)
            } else {
                Err(RuntimeError::Overflow)
            },
        },
        BinOp::Rem => match x.checked_rem(y) {
            Some(v) => Ok(Obj::Int(v)),
            None => if y == 0 {
                Err(RuntimeError::DivisionByZero)
            } else {
                Err(RuntimeError::Overflow)
            },
        },
        BinOp::Pow => int_result(pow(x as int, exponent_of(y))),
        BinOp::Gt => Ok(Obj::Bool(x > y)),
        BinOp::Lt => Ok(Obj::Bool(x < y)),
        BinOp::Ge => Ok(Obj::Bool(x >= y)),
        BinOp::Le => Ok(Obj::Bool(x <= y)),
        BinOp::Eq => Ok(Obj::Bool(x == y)),
        BinOp::Ne => Ok(Obj::Bool(x != y)),
        BinOp::And | BinOp::Or => Err(RuntimeError::Mismatch(op)),
    }
}

/// What `l op r` gives for a named operator, with neither operand `Nil`.
/// Typing is strict: no operator mixes an integer with a float. Of a float
/// result only its type is stated; its value comes from the host.
pub open spec fn op_outcome(op: BinOp, l: Obj, r: Obj, res: Result<Obj, RuntimeError>) -> bool {
    match (l, r) {
        (Obj::Int(x), Obj::Int(y)) => res == int_outcome(op, x, y),
        (Obj::Float(_), Obj::Float(_)) => if is_arith(op) {
            res matches Ok(Obj::Float(_))
        } else if is_compare(op) {
            res matches Ok(Obj::Bool(_))
        } else {
            res == Err::<Obj, RuntimeError>(RuntimeError::Mismatch(op))
        },
        (Obj::String(x), Obj::String(y)) => if op == BinOp::Add {
            res matches Ok(Obj::String(z)) && z@ == x@ + y@
        } else {
            res == Err::<Obj, RuntimeError>(RuntimeError::Mismatch(op))
        },
        (Obj::Bool(x), Obj::Bool(y)) => if op == BinOp::And {
            res == Ok::<Obj, RuntimeError>(Obj::Bool(x && y))
        } else if op == BinOp::Or {
            res == Ok::<Obj, RuntimeError>(Obj::Bool(x || y))
        } else {
            res == Err::<Obj, RuntimeError>(RuntimeError::Mismatch(op))
        },
        _ => res == Err::<Obj, RuntimeError>(RuntimeError::Mismatch(op)),
    }
}

/// What `l op r` gives: `Nil` where either operand is `Nil`, whatever the
/// operator; `Invalid` for text that names no operator.
pub open spec fn binary_outcome(op: Seq<char>, l: Obj, r: Obj, res: Result<Obj, RuntimeError>) -> bool {
    if l is Nil || r is Nil {
        res == Ok::<Obj, RuntimeError>(Obj::Nil)
    } else {
        match bin_op_of(op) {
            None => res == Ok::<Obj, RuntimeError>(Obj::Invalid),
            Some(o) => op_outcome(o, l, r, res),
        }
    }
}

fn int_op(op: BinOp, x: i64, y: i64) -> (r: Result<Obj, RuntimeError>)
    ensures
        r == int_outcome(op, x, y),
{
    let checked = match op {
        BinOp::Add => x.checked_add(y),
        BinOp::Sub => x.checked_sub(y),
        BinOp::Mul => x.checked_mul(y),
        BinOp::Pow => int_pow(x, y as u32),
        BinOp::Div => {
            if y == 0 {
                return Err(RuntimeError::DivisionByZero);
            }
            x.checked_div(y)
        },
        BinOp::Rem => {
            if y == 0 {
                return Err(RuntimeError::DivisionByZero);
            }
            x.checked_rem(y)
        },
        BinOp::Gt => {
            return Ok(Obj::Bool(x > y));
        },
        BinOp::Lt => {
            return Ok(Obj::Bool(x < y));
        },
        BinOp::Ge => {
            return Ok(Obj::Bool(x >= y));
        },
        BinOp::Le => {
            return Ok(Obj::Bool(x <= y));
        },
        BinOp::Eq => {
            return Ok(Obj::Bool(x == y));
        },
        BinOp::Ne => {
            return Ok(Obj::Bool(x != y));
        },
        BinOp::And | BinOp::Or => {
            return Err(RuntimeError::Mismatch(op));
        },
    };
    match checked {
        Some(v) => Ok(Obj::Int(v)),
        None => Err(RuntimeError::Overflow),
    }
}

/// Applies a binary operator to two evaluated operands.
pub fn apply_binary_op<H: Host>(lhs: &Obj, rhs: &Obj, op: &str, host: &mut H) -> (r: Result<
    Obj,
    RuntimeError,
>)
    ensures
        binary_outcome(op@, *lhs, *rhs, r),
        binary_value(op@, obj_view(*lhs), obj_view(*rhs)) matches Some(x) ==> res_view(r) == x,
{
    if let Obj::Nil = lhs {
        return Ok(Obj::Nil);
    }
    if let Obj::Nil = rhs {
        return Ok(Obj::Nil);
    }
    let o = match bin_op(op) {
        None => {
            return Ok(Obj::Invalid);
        },
        Some(o) => o,
    };
    match (lhs, rhs) {
        (Obj::Int(x), Obj::Int(y)) => int_op(o, *x, *y),
        (Obj::Float(a), Obj::Float(b)) => {
            if o == BinOp::Add || o == BinOp::Sub || o == BinOp::Mul || o == BinOp::Div || o
                == BinOp::Pow || o == BinOp::Rem {
                Ok(Obj::Float(host.float_arith(o, *a, *b)))
            } else if o == BinOp::Gt || o == BinOp::Lt || o == BinOp::Ge || o == BinOp::Le || o
                == BinOp::Eq || o == BinOp::Ne {
                Ok(Obj::Bool(host.float_compare(o, *a, *b)))
            } else {
                Err(RuntimeError::Mismatch(o))
            }
        },
        (Obj::String(x), Obj::String(y)) => {
            if o == BinOp::Add {
                Ok(Obj::String(x.clone().concat(y.as_str())))
            } else {
                Err(RuntimeError::Mismatch(o))
            }
        },
        (Obj::Bool(x), Obj::Bool(y)) => {
            if o == BinOp::And {
                Ok(Obj::Bool(*x && *y))
            } else if o == BinOp::Or {
                Ok(Obj::Bool(*x || *y))
            } else {
                Err(RuntimeError::Mismatch(o))
            }
        },
        _ => Err(RuntimeError::Mismatch(o)),
    }
}

/// The float bit pattern is neither `0.0` nor `-0.0`.
pub open spec fn float_nonzero(bits: u64) -> bool {
    bits & 0x7fff_ffff_ffff_ffff != 0
}

/// How a value reads as a condition.
pub open spec fn truthy(obj: Obj) -> bool {
    match obj {
        Obj::Bool(x) => x,
        Obj::Nil => false,
        Obj::Invalid => false,
        Obj::String(s) => s@.len() > 0,
        Obj::Int(x) => x != 0,
        Obj::Float(bits) => float_nonzero(bits),
        Obj::Array(v) => v@.len() > 0,
    }
}

pub fn truthiness(obj: &Obj) -> (r: bool)
    ensures
        r == truthy(*obj),
        r == truthy_value(obj_view(*obj)),
{
    proof {
        if let Obj::Array(v) = obj {
            lemma_objs_view_index(v@);
        }
    }
    match obj {
        Obj::Bool(x) => *x,
        Obj::Nil => false,
        Obj::Invalid => false,
        Obj::String(s) => s.unicode_len() > 0,
        Obj::Int(x) => *x != 0,
        Obj::Float(bits) => *bits & 0x7fff_ffff_ffff_ffff != 0,
        Obj::Array(v) => v.len() > 0,
    }
}

/// What a unary operator gives: `!` on a boolean, `-` on a number (a float
/// is negated by its sign bit); `None` where the operator does not apply.
pub open spec fn unary_outcome(op: Seq<char>, v: Obj) -> Option<Result<Obj, RuntimeError>> {
    match v {
        Obj::Bool(x) if op == "!"@ => Some(Ok(Obj::Bool(!x))),
        Obj::Int(x) if op == "-"@ => Some(int_result(-x)),
        Obj::Float(bits) if op == "-"@ => Some(Ok(Obj::Float(bits ^ 0x8000_0000_0000_0000))),
        _ => None,
    }
}

pub fn apply_unary_op(op: &String, v: Obj) -> (r: Result<Obj, RuntimeError>)
    ensures
        match unary_outcome(op@, v) {
            Some(x) => r == x,
            None => r matches Err(RuntimeError::UnaryMismatch(o)) && o@ == op@,
        },
        res_view(r) == unary_value(op@, obj_view(v)),
{
    let neg = text_is(op.as_str(), "-");
    let not = text_is(op.as_str(), "!");
    match v {
        Obj::Bool(x) if not => Ok(Obj::Bool(!x)),
        Obj::Int(x) if neg => match 0i64.checked_sub(x) {
            Some(y) => Ok(Obj::Int(y)),
            None => Err(RuntimeError::Overflow),
        },
        Obj::Float(bits) if neg => Ok(Obj::Float(bits ^ 0x8000_0000_0000_0000)),
        _ => Err(RuntimeError::UnaryMismatch(op.clone())),
    }
}


/// A declared function: its parameter names and its body, shared with the
/// declaration.
#[derive(Debug)]
pub struct Fun {
    pub args: Vec<String>,
    pub body: Rc<StatSeq>,
}

/// A variable and its value.
#[derive(Debug)]
pub struct Binding {
    pub name: String,
    pub value: Obj,
}

/// A function and its name.
#[derive(Debug)]
pub struct FunBinding {
    pub name: String,
    pub fun: Fun,
}

/// An evaluation frame: variables, functions, and the return signal. Within
/// each list a name is looked up at its first entry.
#[derive(Debug)]
pub struct Scope {
    pub vars: Vec<Binding>,
    pub funs: Vec<FunBinding>,
    pub ret_val: Obj,
    pub ret_flag: bool,
}

/// The first position of `name` in `names`.
pub open spec fn first_index(names: Seq<Seq<char>>, name: Seq<char>) -> Option<int> {
    if exists|i: int| 0 <= i < names.len() && names[i] == name {
        Some(
            choose|i: int|
                0 <= i < names.len() && names[i] == name && forall|j: int|
                    0 <= j < i ==> names[j] != name,
        )
    } else {
        None
    }
}

/// No name occurs twice.
pub open spec fn unique_names(names: Seq<Seq<char>>) -> bool {
    forall|i: int, j: int| 0 <= i < j < names.len() ==> names[i] != names[j]
}

pub open spec fn var_names(vars: Seq<Binding>) -> Seq<Seq<char>> {
    vars.map_values(|b: Binding| b.name@)
}

/// The first entry of `vars` that binds `name`.
pub open spec fn var_index(vars: Seq<Binding>, name: Seq<char>) -> Option<int> {
    first_index(var_names(vars), name)
}

/// Variables as names and values.
pub open spec fn vars_view(vars: Seq<Binding>) -> Seq<(Seq<char>, ObjV)> {
    vars.map_values(|b: Binding| (b.name@, obj_view(b.value)))
}

/// The first entry of a variable list that binds `name`.
pub open spec fn index_of(vars: Seq<(Seq<char>, ObjV)>, name: Seq<char>) -> Option<int> {
    first_index(vars.map_values(|p: (Seq<char>, ObjV)| p.0), name)
}

proof fn lemma_first_exists(names: Seq<Seq<char>>, name: Seq<char>, k: int)
    requires
        0 <= k < names.len(),
        names[k] == name,
    ensures
        exists|i: int|
            0 <= i < names.len() && names[i] == name && forall|j: int|
                0 <= j < i ==> names[j] != name,
    decreases k,
{
    if exists|j: int| 0 <= j < k && names[j] == name {
        let j = choose|j: int| 0 <= j < k && names[j] == name;
        lemma_first_exists(names, name, j);
    } else {
        assert(forall|j: int| 0 <= j < k ==> names[j] != name);
    }
}

proof fn lemma_first_index(names: Seq<Seq<char>>, name: Seq<char>)
    ensures
        first_index(names, name) matches Some(i) ==> 0 <= i < names.len() && names[i] == name,
        first_index(names, name) is None ==> forall|i: int|
            0 <= i < names.len() ==> names[i] != name,
{
    if exists|i: int| 0 <= i < names.len() && names[i] == name {
        let k = choose|i: int| 0 <= i < names.len() && names[i] == name;
        lemma_first_exists(names, name, k);
    }
}

proof fn lemma_objs_view_index(s: Seq<Obj>)
    ensures
        objs_view(s).len() == s.len(),
        forall|i: int| 0 <= i < s.len() ==> #[trigger] objs_view(s)[i] == obj_view(s[i]),
    decreases s.len(),
{
    if s.len() > 0 {
        lemma_objs_view_index(s.drop_last());
    }
}

proof fn lemma_vars_view_names(vars: Seq<Binding>)
    ensures
        vars_view(vars).map_values(|p: (Seq<char>, ObjV)| p.0) == var_names(vars),
        vars_view(vars).len() == vars.len(),
        forall|i: int|
            0 <= i < vars.len() ==> #[trigger] vars_view(vars)[i] == (
                vars[i].name@,
                obj_view(vars[i].value),
            ),
{
    assert(vars_view(vars).map_values(|p: (Seq<char>, ObjV)| p.0) =~= var_names(vars));
}

pub open spec fn fun_names(funs: Seq<FunBinding>) -> Seq<Seq<char>> {
    funs.map_values(|b: FunBinding| b.name@)
}

/// The first entry of `funs` that binds `name`.
pub open spec fn fun_index(funs: Seq<FunBinding>, name: Seq<char>) -> Option<int> {
    first_index(fun_names(funs), name)
}

/// A function as its parameter names and its body.
pub struct FunV {
    pub params: Seq<Seq<char>>,
    pub body: Seq<NodeV>,
}

pub open spec fn fun_view(f: Fun) -> FunV {
    FunV { params: names_view(f.args@), body: nodes_view(f.body.nodes@) }
}

/// Functions as names and their views.
pub open spec fn funs_view(funs: Seq<FunBinding>) -> Seq<(Seq<char>, FunV)> {
    funs.map_values(|b: FunBinding| (b.name@, fun_view(b.fun)))
}

/// The first entry of a function list that binds `name`.
pub open spec fn fun_of(funs: Seq<(Seq<char>, FunV)>, name: Seq<char>) -> Option<int> {
    first_index(funs.map_values(|p: (Seq<char>, FunV)| p.0), name)
}

/// The functions with `name` bound to `f`, as `set_value` does for variables.
pub open spec fn set_fun_value(funs: Seq<(Seq<char>, FunV)>, name: Seq<char>, f: FunV) -> Seq<
    (Seq<char>, FunV),
> {
    match fun_of(funs, name) {
        Some(i) => funs.update(i, (name, f)),
        None => funs.push((name, f)),
    }
}

proof fn lemma_funs_view_names(funs: Seq<FunBinding>)
    ensures
        funs_view(funs).map_values(|p: (Seq<char>, FunV)| p.0) == fun_names(funs),
        funs_view(funs).len() == funs.len(),
        forall|i: int|
            0 <= i < funs.len() ==> #[trigger] funs_view(funs)[i] == (
                funs[i].name@,
                fun_view(funs[i].fun),
            ),
{
    assert(funs_view(funs).map_values(|p: (Seq<char>, FunV)| p.0) =~= fun_names(funs));
}

pub fn find_var(vars: &Vec<Binding>, name: &String) -> (r: Option<usize>)
    ensures
        r matches Some(i) ==> i < vars@.len() && vars@[i as int].name@ == name@ && var_index(
            vars@,
            name@,
        ) == Some(i as int),
        r is None ==> var_index(vars@, name@) is None,
{
    let mut i: usize = 0;
    while i < vars.len()
        invariant
            i <= vars.len(),
            forall|j: int| 0 <= j < i ==> vars@[j].name@ != name@,
        decreases vars.len() - i,
    {
        if vars[i].name.eq(name) {
            proof {
                let names = var_names(vars@);
                assert(names[i as int] == name@);
                let k = choose|k: int|
                    0 <= k < names.len() && names[k] == name@ && forall|j: int|
                        0 <= j < k ==> names[j] != name@;
                assert(k == i as int) by {
                    if k < i {
                        assert(names[k] == vars@[k].name@);
                    } else if k > i {
                        assert(names[i as int] == name@);
                    }
                }
            }
            return Some(i);
        }
        i = i + 1;
    }
    proof {
        let names = var_names(vars@);
        assert forall|k: int| 0 <= k < names.len() implies names[k] != name@ by {
            assert(names[k] == vars@[k].name@);
        }
    }
    None
}

pub fn find_fun(funs: &Vec<FunBinding>, name: &String) -> (r: Option<usize>)
    ensures
        r matches Some(i) ==> i < funs@.len() && funs@[i as int].name@ == name@ && fun_index(
            funs@,
            name@,
        ) == Some(i as int),
        r is None ==> fun_index(funs@, name@) is None,
{
    let mut i: usize = 0;
    while i < funs.len()
        invariant
            i <= funs.len(),
            forall|j: int| 0 <= j < i ==> funs@[j].name@ != name@,
        decreases funs.len() - i,
    {
        if funs[i].name.eq(name) {
            proof {
                let names = fun_names(funs@);
                assert(names[i as int] == name@);
                let k = choose|k: int|
                    0 <= k < names.len() && names[k] == name@ && forall|j: int|
                        0 <= j < k ==> names[j] != name@;
                assert(k == i as int) by {
                    if k < i {
                        assert(names[k] == funs@[k].name@);
                    } else if k > i {
                        assert(names[i as int] == name@);
                    }
                }
            }
            return Some(i);
        }
        i = i + 1;
    }
    proof {
        let names = fun_names(funs@);
        assert forall|k: int| 0 <= k < names.len() implies names[k] != name@ by {
            assert(names[k] == funs@[k].name@);
        }
    }
    None
}

/// Binds `name` to `value`: the first entry for the name is rebound, or a new
/// entry is added at the end.
pub fn set_var(vars: &mut Vec<Binding>, name: &String, value: Obj)
    ensures
        match var_index(old(vars)@, name@) {
            Some(i) => final(vars)@ == old(vars)@.update(
                i,
                Binding { name: old(vars)@[i].name, value },
            ),
            None => final(vars)@ == old(vars)@.push(Binding { name: *name, value }),
        },
        var_index(final(vars)@, name@) is Some,
        vars_view(final(vars)@) == set_value(vars_view(old(vars)@), name@, obj_view(value)),
        unique_names(var_names(old(vars)@)) ==> unique_names(var_names(final(vars)@)),
{
    proof {
        lemma_vars_view_names(vars@);
        lemma_first_index(var_names(vars@), name@);
    }
    match find_var(vars, name) {
        Some(i) => {
            let n = vars[i].name.clone();
            vars.set(i, Binding { name: n, value });
            assert(var_names(vars@)[i as int] == name@);
            assert(var_names(vars@) =~= var_names(old(vars)@));
            assert(vars_view(vars@) =~= vars_view(old(vars)@).update(i as int, (name@, obj_view(value))));
        },
        None => {
            vars.push(Binding { name: name.clone(), value });
            assert(var_names(vars@)[vars@.len() - 1] == name@);
            assert(var_names(vars@) =~= var_names(old(vars)@).push(name@));
            assert(vars_view(vars@) =~= vars_view(old(vars)@).push((name@, obj_view(value))));
        },
    }
}

/// Binds `name` to `fun`, as `set_var` does for variables.
#[verifier::rlimit(50)]
pub fn set_fun(funs: &mut Vec<FunBinding>, name: &String, fun: Fun)
    ensures
        match fun_index(old(funs)@, name@) {
            Some(i) => final(funs)@ == old(funs)@.update(
                i,
                FunBinding { name: old(funs)@[i].name, fun },
            ),
            None => final(funs)@ == old(funs)@.push(FunBinding { name: *name, fun }),
        },
        fun_index(final(funs)@, name@) is Some,
        funs_view(final(funs)@) == set_fun_value(funs_view(old(funs)@), name@, fun_view(fun)),
        unique_names(fun_names(old(funs)@)) ==> unique_names(fun_names(final(funs)@)),
{
    proof {
        lemma_funs_view_names(funs@);
        lemma_first_index(fun_names(funs@), name@);
    }
    let ghost fv = fun_view(fun);
    match find_fun(funs, name) {
        Some(i) => {
            let n = funs[i].name.clone();
            funs.set(i, FunBinding { name: n, fun });
            assert(fun_names(funs@)[i as int] == name@);
            assert(fun_names(funs@) =~= fun_names(old(funs)@));
            assert(funs_view(funs@) =~= funs_view(old(funs)@).update(i as int, (name@, fv)));
        },
        None => {
            funs.push(FunBinding { name: name.clone(), fun });
            assert(fun_names(funs@)[funs@.len() - 1] == name@);
            assert(fun_names(funs@) =~= fun_names(old(funs)@).push(name@));
            assert(funs_view(funs@) =~= funs_view(old(funs)@).push((name@, fv)));
        },
    }
}

/// A copy of each name, in order.
fn copy_names(v: &Vec<String>) -> (r: Vec<String>)
    ensures
        names_view(r@) == names_view(v@),
{
    let mut out: Vec<String> = Vec::new();
    let mut i: usize = 0;
    while i < v.len()
        invariant
            i <= v.len(),
            out@.len() == i,
            forall|k: int| 0 <= k < i ==> #[trigger] out@[k]@ == v@[k]@,
        decreases v.len() - i,
    {
        out.push(v[i].clone());
        i = i + 1;
    }
    assert(names_view(out@) =~= names_view(v@));
    out
}

/// Relies on `Rc::clone`: another pointer to the same value.
#[verifier::external_body]
fn share(body: &Rc<StatSeq>) -> (r: Rc<StatSeq>)
    ensures
        *r == **body,
{
    Rc::clone(body)
}

impl Obj {
    /// A deep copy of the value.
    pub fn copy(&self) -> (r: Obj)
        ensures
            obj_view(r) == obj_view(*self),
            !(self is Array) ==> r == *self,
        decreases self,
    {
        match self {
            Obj::Invalid => Obj::Invalid,
            Obj::Int(x) => Obj::Int(*x),
            Obj::Float(x) => Obj::Float(*x),
            Obj::String(s) => Obj::String(s.clone()),
            Obj::Bool(b) => Obj::Bool(*b),
            Obj::Nil => Obj::Nil,
            Obj::Array(v) => Obj::Array(copy_all(v)),
        }
    }
}

impl Fun {
    pub fn copy(&self) -> (r: Fun)
        ensures
            fun_view(r) == fun_view(*self),
    {
        Fun { args: copy_names(&self.args), body: share(&self.body) }
    }
}

impl Scope {
    /// Each variable and each function has one entry.
    pub open spec fn wf(&self) -> bool {
        unique_names(var_names(self.vars@)) && unique_names(fun_names(self.funs@))
    }

    /// A frame with no variables, no functions and no return signal.
    pub fn new() -> (r: Scope)
        ensures
            r.wf(),
            r.vars@.len() == 0,
            r.funs@.len() == 0,
            r.ret_val is Invalid,
            !r.ret_flag,
    {
        Scope { vars: Vec::new(), funs: Vec::new(), ret_val: Obj::Invalid, ret_flag: false }
    }

    /// A copy of the whole frame, for a function call or a loop iteration.
    pub fn duplicate(&self) -> (r: Scope)
        ensures
            r.vars@.len() == self.vars@.len(),
            forall|i: int| 0 <= i < r.vars@.len() ==> #[trigger] r.vars@[i].name == self.vars@[i].name,
            forall|i: int|
                0 <= i < r.vars@.len() ==> obj_view(#[trigger] r.vars@[i].value) == obj_view(
                    self.vars@[i].value,
                ),
            r.funs@.len() == self.funs@.len(),
            forall|i: int| 0 <= i < r.funs@.len() ==> #[trigger] r.funs@[i].name == self.funs@[i].name,
            r.ret_flag == self.ret_flag,
            frame_view(r) == frame_view(*self),
            self.wf() ==> r.wf(),
    {
        let mut vars: Vec<Binding> = Vec::new();
        let mut i: usize = 0;
        while i < self.vars.len()
            invariant
                i <= self.vars.len(),
                vars@.len() == i,
                forall|k: int| 0 <= k < i ==> #[trigger] vars@[k].name == self.vars@[k].name,
                forall|k: int|
                    0 <= k < i ==> obj_view(#[trigger] vars@[k].value) == obj_view(
                        self.vars@[k].value,
                    ),
            decreases self.vars.len() - i,
        {
            vars.push(Binding { name: self.vars[i].name.clone(), value: self.vars[i].value.copy() });
            i = i + 1;
        }
        let mut funs: Vec<FunBinding> = Vec::new();
        let mut j: usize = 0;
        while j < self.funs.len()
            invariant
                j <= self.funs.len(),
                funs@.len() == j,
                forall|k: int| 0 <= k < j ==> #[trigger] funs@[k].name == self.funs@[k].name,
                forall|k: int|
                    0 <= k < j ==> fun_view(#[trigger] funs@[k].fun) == fun_view(self.funs@[k].fun),
            decreases self.funs.len() - j,
        {
            funs.push(FunBinding { name: self.funs[j].name.clone(), fun: self.funs[j].fun.copy() });
            j = j + 1;
        }
        let r = Scope { vars, funs, ret_val: self.ret_val.copy(), ret_flag: self.ret_flag };
        proof {
            lemma_vars_view_names(r.vars@);
            lemma_vars_view_names(self.vars@);
            assert(vars_view(r.vars@) =~= vars_view(self.vars@));
            lemma_funs_view_names(r.funs@);
            lemma_funs_view_names(self.funs@);
            assert(funs_view(r.funs@) =~= funs_view(self.funs@));
            assert(var_names(r.vars@) =~= var_names(self.vars@));
            assert(fun_names(r.funs@) =~= fun_names(self.funs@));
        }
        r
    }
}


/// A deep copy of each value, in order.
fn copy_all(v: &Vec<Obj>) -> (r: Vec<Obj>)
    ensures
        objs_view(r@) == objs_view(v@),
    decreases v,
{
    let mut w: Vec<Obj> = Vec::new();
    let mut i: usize = 0;
    proof {
        assert(w@ =~= v@.take(0));
    }
    while i < v.len()
        invariant
            i <= v.len(),
            objs_view(w@) == objs_view(v@.take(i as int)),
        decreases v.len() - i,
    {
        proof {
            vstd::std_specs::vec::axiom_vec_index_decreases(*v, i as int);
        }
        let x = v[i].copy();
        proof {
            assert(w@.push(x).drop_last() =~= w@);
            assert(v@.take(i + 1).drop_last() =~= v@.take(i as int));
        }
        w.push(x);
        i = i + 1;
    }
    assert(v@.take(v@.len() as int) =~= v@);
    w
}


pub open spec fn digit_char(d: nat) -> char {
    if d == 0 { '0' } else if d == 1 { '1' } else if d == 2 { '2' } else if d == 3 { '3' }
    else if d == 4 { '4' } else if d == 5 { '5' } else if d == 6 { '6' } else if d == 7 { '7' }
    else if d == 8 { '8' } else { '9' }
}

/// The decimal digits of a natural number, most significant first.
pub open spec fn nat_text(n: nat) -> Seq<char>
    decreases n,
{
    if n < 10 {
        seq![digit_char(n)]
    } else {
        nat_text(n / 10).push(digit_char(n % 10))
    }
}

/// The decimal text of an integer, with a leading `-` where it is negative.
pub open spec fn int_text(x: int) -> Seq<char> {
    if x < 0 {
        seq!['-'] + nat_text((-x) as nat)
    } else {
        nat_text(x as nat)
    }
}

fn digit_of(d: u64) -> (c: char)
    requires
        d < 10,
    ensures
        c == digit_char(d as nat),
{
    if d == 0 {
        '0'
    } else if d == 1 {
        '1'
    } else if d == 2 {
        '2'
    } else if d == 3 {
        '3'
    } else if d == 4 {
        '4'
    } else if d == 5 {
        '5'
    } else if d == 6 {
        '6'
    } else if d == 7 {
        '7'
    } else if d == 8 {
        '8'
    } else {
        '9'
    }
}

/// The decimal text of an integer.
pub fn render_int(x: i64) -> (r: String)
    ensures
        r@ == int_text(x as int),
{
    let wide: i128 = x as i128;
    let mag: u64 = if x < 0 {
        (0 - wide) as u64
    } else {
        x as u64
    };
    assert(mag as int == if x < 0 { -(x as int) } else { x as int });
    let mut cur: u64 = mag;
    let mut digits: Vec<char> = Vec::new();
    loop
        invariant_except_break
            nat_text(mag as nat) == nat_text(cur as nat) + digits@,
        ensures
            nat_text(mag as nat) == digits@,
        decreases cur,
    {
        if cur < 10 {
            let ghost before = digits@;
            digits.insert(0, digit_of(cur));
            proof {
                assert(nat_text(cur as nat) == seq![digit_char(cur as nat)]);
                assert(digits@ =~= seq![digit_char(cur as nat)] + before);
            }
            break;
        }
        let d = digit_of(cur % 10);
        let ghost old_digits = digits@;
        digits.insert(0, d);
        proof {
            assert(nat_text(cur as nat) == nat_text((cur / 10) as nat).push(d));
            assert(nat_text((cur / 10) as nat).push(d) + old_digits =~= nat_text(
                (cur / 10) as nat,
            ) + digits@);
        }
        cur = cur / 10;
    }
    let ghost unsigned = digits@;
    if x < 0 {
        digits.insert(0, '-');
        assert(digits@ =~= seq!['-'] + unsigned);
    }
    crate::lexer::string_of(&digits)
}

/// The text of a value: `Nil`, a number or string in its natural form,
/// `true` or `false`, or `[e0, e1, ]` for an array, each element followed by
/// `, `. `None` for a value with no text, and where a float's text, which the
/// host gives, is part of it.
pub open spec fn text_of(v: ObjV) -> Option<Seq<char>>
    decreases v,
{
    match v {
        ObjV::Nil => Some("Nil"@),
        ObjV::Int(x) => Some(int_text(x as int)),
        ObjV::Str(s) => Some(s),
        ObjV::Bool(b) => Some(
            if b {
                "true"@
            } else {
                "false"@
            },
        ),
        ObjV::Array(vs) => match items_text(vs) {
            Some(t) => Some(seq!['['] + t + seq![']']),
            None => None,
        },
        ObjV::Float(_) | ObjV::Invalid => None,
    }
}

/// The texts of the elements, each followed by `, `.
pub open spec fn items_text(vs: Seq<ObjV>) -> Option<Seq<char>>
    decreases vs,
{
    if vs.len() == 0 {
        Some(Seq::empty())
    } else {
        match (items_text(vs.drop_last()), text_of(vs.last())) {
            (Some(a), Some(b)) => Some(a + b + seq![',', ' ']),
            _ => None,
        }
    }
}

proof fn lemma_items_text_prefix(vs: Seq<ObjV>, j: int)
    requires
        0 <= j <= vs.len(),
        items_text(vs) is Some,
    ensures
        items_text(vs.take(j)) is Some,
    decreases vs.len() - j,
{
    if j < vs.len() {
        assert(vs.drop_last().take(j) =~= vs.take(j));
        lemma_items_text_prefix(vs.drop_last(), j);
    } else {
        assert(vs.take(j) =~= vs);
    }
}

proof fn lemma_text_no_invalid(v: ObjV)
    ensures
        text_of(v) is Some ==> !has_invalid(v),
    decreases v,
{
    if let ObjV::Array(vs) = v {
        lemma_items_no_invalid(vs);
    }
}

proof fn lemma_items_no_invalid(vs: Seq<ObjV>)
    ensures
        items_text(vs) is Some ==> !any_invalid(vs),
    decreases vs,
{
    if vs.len() > 0 {
        lemma_items_no_invalid(vs.drop_last());
        lemma_text_no_invalid(vs.last());
    }
}

/// The text rendered for a value is its text, where the library decides it.
pub open spec fn rendered(obj: Obj, text: Seq<char>) -> bool {
    match text_of(obj_view(obj)) {
        Some(t) => text == t,
        None => true,
    }
}

fn append(s: &mut String, t: &str)
    ensures
        final(s)@ == old(s)@ + t@,
{
    s.append(t);
}

/// The value is, or holds at some depth, a value with no text.
pub open spec fn has_invalid(v: ObjV) -> bool
    decreases v,
{
    match v {
        ObjV::Invalid => true,
        ObjV::Array(vs) => any_invalid(vs),
        _ => false,
    }
}

pub open spec fn any_invalid(vs: Seq<ObjV>) -> bool
    decreases vs,
{
    if vs.len() == 0 {
        false
    } else {
        any_invalid(vs.drop_last()) || has_invalid(vs.last())
    }
}

proof fn lemma_any_invalid(vs: Seq<ObjV>)
    ensures
        any_invalid(vs) <==> exists|i: int| 0 <= i < vs.len() && has_invalid(#[trigger] vs[i]),
    decreases vs.len(),
{
    if vs.len() > 0 {
        lemma_any_invalid(vs.drop_last());
        if any_invalid(vs.drop_last()) {
            let i = choose|i: int| 0 <= i < vs.drop_last().len() && has_invalid(vs.drop_last()[i]);
            assert(has_invalid(vs[i]));
        }
        if exists|i: int| 0 <= i < vs.len() && has_invalid(#[trigger] vs[i]) {
            let i = choose|i: int| 0 <= i < vs.len() && has_invalid(#[trigger] vs[i]);
            if i < vs.len() - 1 {
                assert(has_invalid(vs.drop_last()[i]));
            }
        }
    }
}

/// Renders a value as text; floats are rendered by the host.
pub fn render<H: Host>(obj: &Obj, host: &mut H) -> (r: Result<String, RuntimeError>)
    ensures
        r matches Ok(t) ==> rendered(*obj, t@),
        r is Err ==> obj is Invalid || obj is Array,
        obj is Invalid ==> r matches Err(RuntimeError::RenderInvalid),
        r is Err <==> has_invalid(obj_view(*obj)),
        r matches Err(e) ==> e is RenderInvalid,
    decreases obj,
{
    match obj {
        Obj::Invalid => Err(RuntimeError::RenderInvalid),
        Obj::Nil => Ok("Nil".to_owned()),
        Obj::Int(x) => Ok(render_int(*x)),
        Obj::Float(bits) => Ok(host.render_float(*bits)),
        Obj::String(s) => Ok(s.clone()),
        Obj::Bool(b) => Ok(
            if *b {
                "true".to_owned()
            } else {
                "false".to_owned()
            },
        ),
        Obj::Array(v) => {
            let mut out = "[".to_owned();
            let mut i: usize = 0;
            proof {
                reveal_strlit("[");
            }
            proof {
                lemma_objs_view_index(v@);
            }
            proof {
                assert(objs_view(v@).take(0) =~= Seq::<ObjV>::empty());
                assert(out@.subrange(1, out@.len() as int) =~= Seq::<char>::empty());
            }
            while i < v.len()
                invariant
                    i <= v.len(),
                    out@.len() >= 1,
                    out@[0] == '[',
                    items_text(objs_view(v@)) is Some ==> items_text(objs_view(v@).take(i as int))
                        == Some(out@.subrange(1, out@.len() as int)),
                    *obj == Obj::Array(*v),
                    objs_view(v@).len() == v@.len(),
                    forall|k: int| 0 <= k < v@.len() ==> #[trigger] objs_view(v@)[k] == obj_view(v@[k]),
                    forall|k: int| 0 <= k < i ==> !has_invalid(#[trigger] objs_view(v@)[k]),
                decreases v.len() - i,
            {
                proof {
                    let ghost o = *obj;
                    vstd::std_specs::vec::axiom_vec_index_decreases(*v, i as int);
                    assert(decreases_to!(o => o->Array_0));
                    assert(decreases_to!(o => v[i as int]));
                }
                let elem = render(&v[i], host);
                let ghost ov = objs_view(v@);
                let ghost prev = out@;
                proof {
                    if items_text(ov) is Some {
                        lemma_items_text_prefix(ov, i + 1);
                        assert(ov.take(i + 1).drop_last() =~= ov.take(i as int));
                        assert(ov.take(i + 1).last() == ov[i as int]);
                    }
                }
                match elem {
                    Ok(t) => {
                        append(&mut out, t.as_str());
                    },
                    Err(e) => {
                        proof {
                            lemma_any_invalid(objs_view(v@));
                            assert(has_invalid(objs_view(v@)[i as int]));
                        }
                        return Err(e);
                    },
                }
                append(&mut out, ", ");
                proof {
                    reveal_strlit(", ");
                    if items_text(ov) is Some {
                        assert(out@.subrange(1, out@.len() as int) =~= prev.subrange(
                            1,
                            prev.len() as int,
                        ) + text_of(ov[i as int])->0 + seq![',', ' ']);
                    }
                }
                i = i + 1;
            }
            let ghost body = out@;
            append(&mut out, "]");
            proof {
                reveal_strlit("]");
                lemma_any_invalid(objs_view(v@));
                assert(objs_view(v@).take(i as int) =~= objs_view(v@));
                if items_text(objs_view(v@)) is Some {
                    assert(out@ =~= seq!['['] + body.subrange(1, body.len() as int) + seq![']']);
                }
            }
            Ok(out)
        },
    }
}


/// The line that `io::println` writes for a value of the given text.
pub open spec fn output_text(text: Seq<char>) -> Seq<char> {
    "dbg out: "@ + text
}

/// The line written for a value: a fixed prefix, then the value's text.
pub fn output_line<H: Host>(v: &Obj, host: &mut H) -> (r: Result<String, RuntimeError>)
    ensures
        r is Err <==> has_invalid(obj_view(*v)),
        r matches Err(e) ==> e is RenderInvalid,
        r matches Ok(line) ==> exists|t: Seq<char>| rendered(*v, t) && line@ == output_text(t),
        text_of(obj_view(*v)) matches Some(t) ==> r matches Ok(line) && line@ == output_text(t),
{
    proof {
        lemma_text_no_invalid(obj_view(*v));
    }
    let text = render(v, host)?;
    let mut line = "dbg out: ".to_owned();
    append(&mut line, text.as_str());
    proof {
        assert(rendered(*v, text@) && line@ == output_text(text@));
    }
    Ok(line)
}

pub open spec fn is_redefinition(r: Result<Obj, RuntimeError>, name: Seq<char>) -> bool {
    r matches Err(RuntimeError::Redefinition(n)) && n@ == name
}

pub open spec fn is_undefined(r: Result<Obj, RuntimeError>, name: Seq<char>) -> bool {
    r matches Err(RuntimeError::Undefined(n)) && n@ == name
}

pub open spec fn is_unknown_member(r: Result<Obj, RuntimeError>, m: Seq<char>, f: Seq<char>) -> bool {
    r matches Err(RuntimeError::UnknownMember(a, b)) && a@ == m && b@ == f
}

/// An assignment that succeeds leaves the name bound; `:=` of a bound name
/// and `=` of an unbound one fail.
pub open spec fn assign_outcome(
    a: VariableAssign,
    before: Seq<Binding>,
    after: Seq<Binding>,
    fuel: u64,
    r: Result<Obj, RuntimeError>,
) -> bool {
    &&& r is Ok ==> var_index(after, a.var_name@) is Some
    &&& fuel > 0 && a.op is Define && var_index(before, a.var_name@) is Some ==> is_redefinition(
        r,
        a.var_name@,
    )
    &&& fuel > 0 && a.op is Assign && var_index(before, a.var_name@) is None ==> is_undefined(
        r,
        a.var_name@,
    )
}

proof fn lemma_cast_nonzero(x: u64)
    requires
        x != 0,
    ensures
        x as i64 != 0,
{
    assert(x as i64 != 0) by (bit_vector)
        requires
            x != 0,
    ;
}

/// A copy of the value bound to the name, or `Undefined` where none is.
pub open spec fn looked_up(vars: Seq<Binding>, name: Seq<char>, r: Result<Obj, RuntimeError>) -> bool {
    match var_index(vars, name) {
        Some(i) => 0 <= i < vars.len() && (r matches Ok(x) && obj_view(x) == obj_view(
            vars[i].value,
        )),
        None => is_undefined(r, name),
    }
}

pub fn lookup_var(vars: &Vec<Binding>, name: &String) -> (r: Result<Obj, RuntimeError>)
    ensures
        looked_up(vars@, name@, r),
{
    match find_var(vars, name) {
        Some(i) => Ok(vars[i].value.copy()),
        None => Err(RuntimeError::Undefined(name.clone())),
    }
}

/// A statement whose `elif` and `else` parts are statements too, as the
/// parser builds them.
pub open spec fn plain_statement(n: Node) -> bool
    decreases n,
{
    match n {
        Node::If(i) => match i.else_block {
            Some(e) => plain_statement(*e),
            None => true,
        },
        _ => !is_expression(n),
    }
}

/// The node is an expression: it computes a value and changes no scope.
pub open spec fn is_expression(n: Node) -> bool {
    n is Binary || n is Unary || n is Int || n is Float || n is Str || n is Var || n is Call
        || n is Module || n is Array
}

/// How a literal condition reads, where the node is an integer, string or
/// array literal: an array literal reads as true when it has elements,
/// whatever they are.
pub open spec fn literal_truth(n: Node) -> Option<bool> {
    match n {
        Node::Int(l) => Some(l.value != 0),
        Node::Str(l) => Some(l.value@.len() > 0),
        Node::Array(a) => Some(a.elem@.len() > 0),
        _ => None,
    }
}

/// Evaluates an expression. Expressions read the scope and never change it;
/// a function call runs in a copy of it. Every evaluation takes one step of
/// `fuel`; none is taken where it is spent.
#[verifier::rlimit(100)]
#[verifier::spinoff_prover]
pub fn eval_expr<H: Host>(node: &Node, scope: &Scope, host: &mut H, fuel: &mut u64) -> (r: Result<
    Obj,
    RuntimeError,
>)
    ensures
        *final(fuel) <= *old(fuel),
        r is Ok ==> *final(fuel) < *old(fuel),
        *old(fuel) == 0 ==> r matches Err(RuntimeError::OutOfSteps),
        *old(fuel) > 0 ==> match *node {
            Node::Int(l) => r == Ok::<Obj, RuntimeError>(Obj::Int(l.value as i64)),
            Node::Str(l) => r matches Ok(Obj::String(s)) && s@ == l.value@,
            Node::Array(a) => (r matches Ok(x) ==> x matches Obj::Array(v) && v@.len()
                == a.elem@.len()) && (a.elem@.len() == 0 ==> r is Ok),
            _ => true,
        },
        expr_matches(eval_e(node_view(*node), frame_view(*scope), *old(fuel) as nat), r, *final(fuel)),
        !is_expression(*node) ==> r is Err,
    decreases *old(fuel), 1nat,
{
    if *fuel == 0 {
        return Err(RuntimeError::OutOfSteps);
    }
    *fuel = *fuel - 1;
    match node {
        Node::Binary(b) => eval_binary(b, scope, host, fuel),
        Node::Unary(u) => eval_unary(u, scope, host, fuel),
        Node::Int(l) => Ok(Obj::Int(l.value as i64)),
        Node::Float(l) => Ok(Obj::Float(host.float_of_text(l.text.as_str()))),
        Node::Str(l) => Ok(Obj::String(l.value.clone())),
        Node::Var(v) => eval_var(v, scope),
        Node::Call(c) => eval_call(c, scope, host, fuel),
        Node::Module(m) => eval_module(m, scope, host, fuel),
        Node::Array(a) => eval_array(a, scope, host, fuel),
        _ => Err(RuntimeError::Malformed),
    }
}

/// The value bound to a variable.
fn eval_var(v: &Variable, scope: &Scope) -> (r: Result<Obj, RuntimeError>)
    ensures
        res_view(r) == match index_of(vars_view(scope.vars@), v.name@) {
            Some(i) => Ok(vars_view(scope.vars@)[i].1),
            None => Err(ErrV::Undefined(v.name@)),
        },
{
    let r = lookup_var(&scope.vars, &v.name);
    proof {
        lemma_vars_view_names(scope.vars@);
    }
    r
}

/// Evaluates both operands, the left one first, and applies the operator.
fn eval_binary<H: Host>(b: &BinaryExpr, scope: &Scope, host: &mut H, fuel: &mut u64) -> (r: Result<
    Obj,
    RuntimeError,
>)
    ensures
        *final(fuel) <= *old(fuel),
        expr_matches(
            eval_e(node_view(Node::Binary(*b)), frame_view(*scope), *old(fuel) as nat + 1),
            r,
            *final(fuel),
        ),
    decreases *old(fuel), 2nat,
{
    let left = eval_expr(&b.left, scope, host, fuel)?;
    let right = eval_expr(&b.right, scope, host, fuel)?;
    apply_binary_op(&left, &right, b.op.as_str(), host)
}

fn eval_unary<H: Host>(u: &UnaryExpr, scope: &Scope, host: &mut H, fuel: &mut u64) -> (r: Result<
    Obj,
    RuntimeError,
>)
    ensures
        *final(fuel) <= *old(fuel),
        expr_matches(
            eval_e(node_view(Node::Unary(*u)), frame_view(*scope), *old(fuel) as nat + 1),
            r,
            *final(fuel),
        ),
    decreases *old(fuel), 2nat,
{
    let v = eval_expr(&u.operand, scope, host, fuel)?;
    apply_unary_op(&u.op, v)
}

proof fn lemma_prepend_ok_push(pre: Seq<ObjV>, v: ObjV, g: Option<(Result<Seq<ObjV>, ErrV>, nat)>)
    ensures
        prepend_ok(pre, prepend_ok(seq![v], g)) == prepend_ok(pre.push(v), g),
{
    if let Some((Ok(vs), f)) = g {
        assert(pre + (seq![v] + vs) =~= pre.push(v) + vs);
    }
}

/// Evaluates expressions left to right, up to the first error.
#[verifier::spinoff_prover]
fn eval_list<H: Host>(es: &Vec<Node>, scope: &Scope, host: &mut H, fuel: &mut u64) -> (r: Result<
    Vec<Obj>,
    RuntimeError,
>)
    ensures
        *final(fuel) <= *old(fuel),
        r matches Ok(v) ==> v@.len() == es@.len(),
        es@.len() == 0 ==> r is Ok,
        list_matches(eval_es(nodes_view(es@), frame_view(*scope), *old(fuel) as nat), r, *final(fuel)),
    decreases *old(fuel), 2nat,
{
    let ghost ns = nodes_view(es@);
    let ghost st = frame_view(*scope);
    let ghost g = eval_es(ns, st, *old(fuel) as nat);
    let mut vals: Vec<Obj> = Vec::new();
    let mut i: usize = 0;
    proof {
        lemma_nodes_view_index(es@);
        assert(ns.skip(0) =~= ns);
        if let Some((Ok(vs), f)) = g {
            assert(Seq::<ObjV>::empty() + vs =~= vs);
        }
        assert(objs_view(vals@) =~= Seq::<ObjV>::empty());
    }
    while i < es.len()
        invariant
            i <= es.len(),
            vals@.len() == i,
            *fuel <= *old(fuel),
            ns == nodes_view(es@),
            ns.len() == es@.len(),
            st == frame_view(*scope),
            g == eval_es(ns, st, *old(fuel) as nat),
            g is Some ==> g == prepend_ok(objs_view(vals@), eval_es(ns.skip(i as int), st, *fuel as nat)),
        decreases es.len() - i,
    {
        proof {
            lemma_nodes_view_index(es@);
            assert(ns.skip(i as int)[0] == ns[i as int]);
            assert(ns.skip(i as int).drop_first() =~= ns.skip(i + 1));
        }
        let ghost f_i = *fuel as nat;
        let ghost rest = ns.skip(i as int);
        proof {
            assert(eval_es(rest, st, f_i) == match eval_e(rest[0], st, f_i) {
                Some((Ok(v), f1)) => if f1 <= f_i {
                    prepend_ok(seq![v], eval_es(rest.drop_first(), st, f1))
                } else {
                    None
                },
                Some((Err(x), f1)) => Some((Err(x), f1)),
                None => None,
            });
        }
        let v = match eval_expr(&es[i], scope, host, fuel) {
            Ok(v) => v,
            Err(e) => {
                return Err(e);
            },
        };
        proof {
            lemma_prepend_ok_push(objs_view(vals@), obj_view(v), eval_es(ns.skip(i + 1), st, *fuel as nat));
            assert(vals@.push(v).drop_last() =~= vals@);
        }
        vals.push(v);
        i = i + 1;
    }
    proof {
        assert(ns.skip(i as int) =~= Seq::<NodeV>::empty());
        assert(objs_view(vals@) + Seq::<ObjV>::empty() =~= objs_view(vals@));
    }
    Ok(vals)
}

/// Evaluates the elements in order, up to the first error.
fn eval_array<H: Host>(a: &ArrayLiteral, scope: &Scope, host: &mut H, fuel: &mut u64) -> (r: Result<
    Obj,
    RuntimeError,
>)
    ensures
        *final(fuel) <= *old(fuel),
        r matches Ok(x) ==> x matches Obj::Array(v) && v@.len() == a.elem@.len(),
        a.elem@.len() == 0 ==> r is Ok,
        expr_matches(
            eval_e(node_view(Node::Array(*a)), frame_view(*scope), *old(fuel) as nat + 1),
            r,
            *final(fuel),
        ),
    decreases *old(fuel), 3nat,
{
    let items = eval_list(&a.elem, scope, host, fuel)?;
    Ok(Obj::Array(items))
}

/// Calls a function: the arguments are evaluated first, left to right; the
/// body runs in a copy of the scope where each parameter is bound to its
/// argument (extra arguments or parameters are left out), and the call gives
/// the value that the body returned.
#[verifier::rlimit(60)]
#[verifier::spinoff_prover]
fn eval_call<H: Host>(call: &FunctionCall, scope: &Scope, host: &mut H, fuel: &mut u64) -> (r:
    Result<Obj, RuntimeError>)
    ensures
        *final(fuel) <= *old(fuel),
        r is Ok ==> fun_index(scope.funs@, call.name@) is Some,
        expr_matches(
            eval_e(node_view(Node::Call(*call)), frame_view(*scope), *old(fuel) as nat + 1),
            r,
            *final(fuel),
        ),
    decreases *old(fuel), 4nat,
{
    let arg_vals = eval_list(&call.args, scope, host, fuel)?;
    proof {
        lemma_funs_view_names(scope.funs@);
        lemma_vars_view_names(scope.vars@);
    }
    let idx = match find_fun(&scope.funs, &call.name) {
        None => {
            return Err(RuntimeError::UndeclaredFunction(call.name.clone()));
        },
        Some(k) => k,
    };
    let fun = &scope.funs[idx].fun;
    let ghost st = frame_view(*scope);
    let ghost params = names_view(fun.args@);
    let ghost vals = objs_view(arg_vals@);
    let mut inner = scope.duplicate();
    inner.ret_val = Obj::Invalid;
    inner.ret_flag = false;
    let n = if arg_vals.len() < fun.args.len() {
        arg_vals.len()
    } else {
        fun.args.len()
    };
    proof {
        lemma_objs_view_index(arg_vals@);
        assert(params.skip(0) =~= params);
        assert(vals.skip(0) =~= vals);
    }
    let mut j: usize = 0;
    while j < n
        invariant
            j <= n,
            n <= arg_vals.len(),
            n <= fun.args.len(),
            n == arg_vals.len() || n == fun.args.len(),
            params == names_view(fun.args@),
            vals == objs_view(arg_vals@),
            vals.len() == arg_vals@.len(),
            forall|k: int| 0 <= k < arg_vals@.len() ==> #[trigger] vals[k] == obj_view(arg_vals@[k]),
            funs_view(inner.funs@) == st.funs,
            obj_view(inner.ret_val) == ObjV::Invalid,
            !inner.ret_flag,
            bind_params(st.vars, params, vals) == bind_params(
                vars_view(inner.vars@),
                params.skip(j as int),
                vals.skip(j as int),
            ),
        decreases n - j,
    {
        proof {
            assert(params.skip(j as int)[0] == params[j as int]);
            assert(vals.skip(j as int)[0] == vals[j as int]);
            assert(params.skip(j as int).drop_first() =~= params.skip(j + 1));
            assert(vals.skip(j as int).drop_first() =~= vals.skip(j + 1));
        }
        set_var(&mut inner.vars, &fun.args[j], arg_vals[j].copy());
        j = j + 1;
    }
    proof {
        assert(params.skip(j as int).len() == 0 || vals.skip(j as int).len() == 0);
    }
    eval_seq(&fun.body.nodes, &mut inner, host, fuel)?;
    Ok(inner.ret_val)
}

/// `io::println(x)` writes the text of `x` after a fixed prefix; no other
/// module member exists.
fn eval_module<H: Host>(m: &ModAccess, scope: &Scope, host: &mut H, fuel: &mut u64) -> (r: Result<
    Obj,
    RuntimeError,
>)
    ensures
        *final(fuel) <= *old(fuel),
        r is Ok ==> r == Ok::<Obj, RuntimeError>(Obj::Invalid),
        !(m.mod_name@ == "io"@ && m.member.name@ == "println"@) ==> is_unknown_member(
            r,
            m.mod_name@,
            m.member.name@,
        ),
        expr_matches(
            eval_e(node_view(Node::Module(*m)), frame_view(*scope), *old(fuel) as nat + 1),
            r,
            *final(fuel),
        ),
    decreases *old(fuel), 4nat,
{
    if !(text_is(m.mod_name.as_str(), "io") && text_is(m.member.name.as_str(), "println")) {
        return Err(RuntimeError::UnknownMember(m.mod_name.clone(), m.member.name.clone()));
    }
    proof {
        lemma_nodes_view_index(m.member.args@);
    }
    if m.member.args.len() == 0 {
        return Err(RuntimeError::MissingArgument);
    }
    let v = eval_expr(&m.member.args[0], scope, host, fuel)?;
    let line = output_line(&v, host)?;
    host.print_line(line);
    Ok(Obj::Invalid)
}

/// Evaluates statements in order, stopping after one that sets the return
/// signal.
#[verifier::spinoff_prover]
pub fn eval_seq<H: Host>(nodes: &Vec<Node>, scope: &mut Scope, host: &mut H, fuel: &mut u64) -> (r:
    Result<Obj, RuntimeError>)
    ensures
        old(scope).wf() ==> final(scope).wf(),
        *final(fuel) <= *old(fuel),
        r is Ok ==> r == Ok::<Obj, RuntimeError>(Obj::Invalid),
        outcome_matches(
            exec_seq(nodes_view(nodes@), frame_view(*old(scope)), *old(fuel) as nat),
            r,
            *final(scope),
            *final(fuel),
        ),
    decreases *old(fuel), 3nat,
{
    let ghost ns = nodes_view(nodes@);
    let ghost g = exec_seq(ns, frame_view(*old(scope)), *old(fuel) as nat);
    let mut i: usize = 0;
    proof {
        lemma_nodes_view_index(nodes@);
        assert(ns.skip(0) =~= ns);
    }
    while i < nodes.len()
        invariant
            i <= nodes.len(),
            *fuel <= *old(fuel),
            ns == nodes_view(nodes@),
            ns.len() == nodes@.len(),
            old(scope).wf() ==> scope.wf(),
            g == exec_seq(ns, frame_view(*old(scope)), *old(fuel) as nat),
            g is Some ==> exec_seq(ns.skip(i as int), frame_view(*scope), *fuel as nat) == g,
        decreases nodes.len() - i,
    {
        proof {
            lemma_nodes_view_index(nodes@);
            assert(ns.skip(i as int)[0] == ns[i as int]);
            assert(ns.skip(i as int).drop_first() =~= ns.skip(i + 1));
        }
        let ghost st_i = frame_view(*scope);
        let ghost f_i = *fuel as nat;
        let step = eval(&nodes[i], scope, host, fuel);
        proof {
            if g is Some {
                let rest = ns.skip(i as int);
                assert(rest[0] == node_view(nodes@[i as int]));
                lemma_seq_unfold(rest, st_i, f_i);
            }
        }
        if let Err(e) = step {
            return Err(e);
        }
        if scope.ret_flag {
            return Ok(Obj::Invalid);
        }
        i = i + 1;
    }
    proof {
        assert(ns.skip(i as int) =~= Seq::<NodeV>::empty());
    }
    Ok(Obj::Invalid)
}

/// The operator of an assigning operator: `+` of `+=`, and so on.
fn base_op(op: &String) -> (r: Option<&'static str>)
    ensures
        match base_of(op@) {
            Some(b) => r matches Some(x) && x@ == b,
            None => r is None,
        },
{
    if text_is(op.as_str(), "+=") {
        Some("+")
    } else if text_is(op.as_str(), "-=") {
        Some("-")
    } else if text_is(op.as_str(), "*=") {
        Some("*")
    } else if text_is(op.as_str(), "/=") {
        Some("/")
    } else {
        None
    }
}

/// What a successful assignment did, whatever its right-hand side computed:
/// `:=` bound a name that was not bound, `=` rebound a bound name to some
/// value, `op=` rebound it to the old value combined by `op` with some
/// value; functions and the return signal are as they were.
pub open spec fn assign_effect(a: VariableAssign, before: Scope, after: Scope) -> bool {
    &&& after.funs == before.funs
    &&& after.ret_val == before.ret_val
    &&& after.ret_flag == before.ret_flag
    &&& a.op is Define ==> var_index(before.vars@, a.var_name@) is None
    &&& (a.op is Assign || a.op is AssignOp) ==> var_index(before.vars@, a.var_name@) is Some
    &&& match a.op {
        TokenClass::AssignOp(x) => exists|v: Obj, w: Obj|
            binary_outcome(
                base_of(x@)->0,
                before.vars@[var_index(before.vars@, a.var_name@)->0].value,
                v,
                Ok(w),
            ) && vars_view(after.vars@) == set_value(
                vars_view(before.vars@),
                a.var_name@,
                obj_view(w),
            ),
        _ => exists|w: Obj|
            vars_view(after.vars@) == set_value(vars_view(before.vars@), a.var_name@, obj_view(w)),
    }
}

/// `:=` binds a name that the scope does not hold; `=` rebinds a name that it
/// holds; `op=` combines the held value with the new one by `op`.
#[verifier::rlimit(100)]
#[verifier::spinoff_prover]
fn bind_assign<H: Host>(a: &VariableAssign, scope: &mut Scope, host: &mut H, fuel: &mut u64) -> (r: Result<Obj, RuntimeError>)
    requires
        a.op is Define || a.op is Assign,
    ensures
        old(scope).wf() ==> final(scope).wf(),
        *final(fuel) <= *old(fuel),
        final(scope).funs == old(scope).funs,
        final(scope).ret_flag == old(scope).ret_flag,
        r is Ok ==> r == Ok::<Obj, RuntimeError>(Obj::Invalid) && var_index(
            final(scope).vars@,
            a.var_name@,
        ) is Some,
        a.op is Define && var_index(old(scope).vars@, a.var_name@) is Some ==> is_redefinition(
            r,
            a.var_name@,
        ),
        a.op is Assign && var_index(old(scope).vars@, a.var_name@) is None ==> is_undefined(
            r,
            a.var_name@,
        ),
        !(a.op is Define || a.op is Assign || a.op is AssignOp) ==> r is Err,
        a.op is AssignOp && var_index(old(scope).vars@, a.var_name@) is None ==> r is Err,
        r is Ok ==> assign_effect(*a, *old(scope), *final(scope)),
        outcome_matches(
            assign_step(
                a.var_name@,
                a.op@,
                node_view(*a.expr),
                frame_view(*old(scope)),
                *old(fuel) as nat,
            ),
            r,
            *final(scope),
            *final(fuel),
        ),
    decreases *old(fuel), 2nat,
{
    proof {
        lemma_vars_view_names(scope.vars@);
    }
    let found = find_var(&scope.vars, &a.var_name);
    let value = if matches!(a.op, TokenClass::Define) {
        if found.is_some() {
            return Err(RuntimeError::Redefinition(a.var_name.clone()));
        }
        eval_expr(&a.expr, scope, host, fuel)?
    } else {
        if found.is_none() {
            return Err(RuntimeError::Undefined(a.var_name.clone()));
        }
        eval_expr(&a.expr, scope, host, fuel)?
    };
    let ghost w = value;
    set_var(&mut scope.vars, &a.var_name, value);
    proof {
        assert(vars_view(scope.vars@) == set_value(
            vars_view(old(scope).vars@),
            a.var_name@,
            obj_view(w),
        ));
    }
    Ok(Obj::Invalid)
}

#[verifier::rlimit(100)]
#[verifier::spinoff_prover]
fn update_assign<H: Host>(a: &VariableAssign, x: &String, scope: &mut Scope, host: &mut H, fuel: &mut u64) -> (r: Result<Obj, RuntimeError>)
    requires
        a.op == TokenClass::AssignOp(*x),
    ensures
        old(scope).wf() ==> final(scope).wf(),
        *final(fuel) <= *old(fuel),
        final(scope).funs == old(scope).funs,
        final(scope).ret_flag == old(scope).ret_flag,
        r is Ok ==> r == Ok::<Obj, RuntimeError>(Obj::Invalid) && var_index(
            final(scope).vars@,
            a.var_name@,
        ) is Some,
        a.op is Define && var_index(old(scope).vars@, a.var_name@) is Some ==> is_redefinition(
            r,
            a.var_name@,
        ),
        a.op is Assign && var_index(old(scope).vars@, a.var_name@) is None ==> is_undefined(
            r,
            a.var_name@,
        ),
        !(a.op is Define || a.op is Assign || a.op is AssignOp) ==> r is Err,
        a.op is AssignOp && var_index(old(scope).vars@, a.var_name@) is None ==> r is Err,
        r is Ok ==> assign_effect(*a, *old(scope), *final(scope)),
        outcome_matches(
            assign_step(
                a.var_name@,
                a.op@,
                node_view(*a.expr),
                frame_view(*old(scope)),
                *old(fuel) as nat,
            ),
            r,
            *final(scope),
            *final(fuel),
        ),
    decreases *old(fuel), 2nat,
{
    proof {
        lemma_vars_view_names(scope.vars@);
    }
    let found = find_var(&scope.vars, &a.var_name);
    let v = eval_expr(&a.expr, scope, host, fuel)?;
    let i = match found {
        None => {
            return Err(RuntimeError::Undefined(a.var_name.clone()));
        },
        Some(i) => i,
    };
    let op = match base_op(x) {
        None => {
            return Err(RuntimeError::Malformed);
        },
        Some(op) => op,
    };
    let value = apply_binary_op(&scope.vars[i].value, &v, op, host)?;
    let ghost w = value;
    set_var(&mut scope.vars, &a.var_name, value);
    proof {
        assert(binary_outcome(
            base_of(a.op->AssignOp_0@)->0,
            old(scope).vars@[var_index(old(scope).vars@, a.var_name@)->0].value,
            v,
            Ok(w),
        ) && vars_view(scope.vars@) == set_value(
            vars_view(old(scope).vars@),
            a.var_name@,
            obj_view(w),
        ));
    }
    Ok(Obj::Invalid)
}

#[verifier::rlimit(100)]
#[verifier::spinoff_prover]
fn eval_assign<H: Host>(a: &VariableAssign, scope: &mut Scope, host: &mut H, fuel: &mut u64) -> (r:
    Result<Obj, RuntimeError>)
    ensures
        old(scope).wf() ==> final(scope).wf(),
        *final(fuel) <= *old(fuel),
        final(scope).funs == old(scope).funs,
        final(scope).ret_flag == old(scope).ret_flag,
        r is Ok ==> r == Ok::<Obj, RuntimeError>(Obj::Invalid) && var_index(
            final(scope).vars@,
            a.var_name@,
        ) is Some,
        a.op is Define && var_index(old(scope).vars@, a.var_name@) is Some ==> is_redefinition(
            r,
            a.var_name@,
        ),
        a.op is Assign && var_index(old(scope).vars@, a.var_name@) is None ==> is_undefined(
            r,
            a.var_name@,
        ),
        !(a.op is Define || a.op is Assign || a.op is AssignOp) ==> r is Err,
        a.op is AssignOp && var_index(old(scope).vars@, a.var_name@) is None ==> r is Err,
        r is Ok ==> assign_effect(*a, *old(scope), *final(scope)),
        outcome_matches(
            assign_step(
                a.var_name@,
                a.op@,
                node_view(*a.expr),
                frame_view(*old(scope)),
                *old(fuel) as nat,
            ),
            r,
            *final(scope),
            *final(fuel),
        ),
    decreases *old(fuel), 3nat,
{
    match &a.op {
        TokenClass::Define | TokenClass::Assign => bind_assign(a, scope, host, fuel),
        TokenClass::AssignOp(x) => update_assign(a, x, scope, host, fuel),
        _ => Err(RuntimeError::Malformed),
    }
}


/// Evaluates a statement, or an expression, against a scope.
///
/// A `for` loop runs its body in a fresh copy of the scope for each element,
/// and an expression never changes the scope, so neither changes the
/// caller's variables; a `while` loop runs its body in the scope itself.
#[verifier::rlimit(100)]
#[verifier::spinoff_prover]
pub fn eval<H: Host>(node: &Node, scope: &mut Scope, host: &mut H, fuel: &mut u64) -> (r: Result<
    Obj,
    RuntimeError,
>)
    ensures
        old(scope).wf() ==> final(scope).wf(),
        *final(fuel) <= *old(fuel),
        r is Ok ==> *final(fuel) < *old(fuel),
        *old(fuel) == 0 ==> r matches Err(RuntimeError::OutOfSteps),
        is_expression(*node) || node is For || node is Import || node is Expr ==> *final(scope)
            == *old(scope),
        node is Return && r is Ok ==> final(scope).ret_flag && final(scope).vars == old(scope).vars
            && final(scope).funs == old(scope).funs && (node->Return_0.expr is None
            ==> final(scope).ret_val == old(scope).ret_val),
        node is Assign && r is Ok ==> assign_effect(node->Assign_0, *old(scope), *final(scope)),
        plain_statement(*node) && r is Ok ==> r == Ok::<Obj, RuntimeError>(Obj::Invalid),
        node is FunDecl && r is Ok ==> final(scope).vars == old(scope).vars && fun_index(
            final(scope).funs@,
            node->FunDecl_0.name@,
        ) is Some,
        node is Assign ==> assign_outcome(
            node->Assign_0,
            old(scope).vars@,
            final(scope).vars@,
            *old(fuel),
            r,
        ),
        node is While && literal_truth(*node->While_0.condition) == Some(false) ==> (r is Ok
            ==> *final(scope) == *old(scope)) && (*old(fuel) >= 2 ==> r is Ok),
        node is While && literal_truth(*node->While_0.condition) == Some(true) ==> r is Err,
        outcome_matches(
            exec_stmt(node_view(*node), frame_view(*old(scope)), *old(fuel) as nat),
            r,
            *final(scope),
            *final(fuel),
        ),
    decreases *old(fuel), 2nat,
{
    proof {
        lemma_stmt_simple(node_view(*node), frame_view(*scope), *fuel as nat);
    }
    if *fuel == 0 {
        return Err(RuntimeError::OutOfSteps);
    }
    *fuel = *fuel - 1;
    match node {
        Node::Block(b) => eval_block(b, scope, host, fuel),
        Node::Import(_) => Ok(Obj::Invalid),
        Node::Assign(a) => eval_assign(a, scope, host, fuel),
        Node::Return(ret) => eval_return(ret, scope, host, fuel),
        Node::FunDecl(d) => declare(d, scope, *fuel),
        Node::Expr(e) => eval_expr_stat(e, scope, host, fuel),
        Node::If(i) => eval_if(i, scope, host, fuel),
        Node::While(w) => {
            proof {
                lemma_stmt_simple(node_view(*node), frame_view(*scope), *fuel as nat + 1);
            }
            eval_while(w, scope, host, fuel)
        },
        Node::For(f) => {
            proof {
                lemma_stmt_simple(node_view(*node), frame_view(*scope), *fuel as nat + 1);
            }
            eval_for(f, scope, host, fuel)
        },
        _ => eval_expr(node, scope, host, fuel),
    }
}


/// Evaluates a block's statements in the scope itself.
fn eval_block<H: Host>(b: &StatSeq, scope: &mut Scope, host: &mut H, fuel: &mut u64) -> (r: Result<
    Obj,
    RuntimeError,
>)
    ensures
        old(scope).wf() ==> final(scope).wf(),
        r is Ok ==> r == Ok::<Obj, RuntimeError>(Obj::Invalid),
        *final(fuel) <= *old(fuel),
        outcome_matches(
            exec_stmt(node_view(Node::Block(*b)), frame_view(*old(scope)), *old(fuel) as nat + 1),
            r,
            *final(scope),
            *final(fuel),
        ),
    decreases *old(fuel), 4nat,
{
    proof {
        reveal(exec_stmt);
    }
    eval_seq(&b.nodes, scope, host, fuel)
}

/// A statement with no steps left runs out of them; an import does nothing;
/// an expression in place of a statement is left open.
proof fn lemma_stmt_simple(n: NodeV, st: FrameV, fuel: nat)
    ensures
        fuel == 0 ==> exec_stmt(n, st, fuel) == Some((Err::<ObjV, ErrV>(ErrV::OutOfSteps), st, 0nat)),
        fuel > 0 && n is Import ==> exec_stmt(n, st, fuel) == Some(
            (Ok::<ObjV, ErrV>(ObjV::Invalid), st, (fuel - 1) as nat),
        ),
        fuel > 0 && n is Assign ==> exec_stmt(n, st, fuel) == assign_step(
            n->Assign_0,
            n->Assign_1,
            *n->Assign_2,
            st,
            (fuel - 1) as nat,
        ),
        fuel > 0 && n is While ==> exec_stmt(n, st, fuel) == exec_while(
            *n->While_0,
            n->While_1,
            st,
            (fuel - 1) as nat,
        ),
        fuel > 0 && n is For ==> exec_stmt(n, st, fuel) == exec_for_stat(
            n->For_0,
            *n->For_1,
            n->For_2,
            st,
            (fuel - 1) as nat,
        ),
        fuel > 0 && !(n is Block || n is Import || n is Assign || n is Return || n is Expr || n is If
            || n is While || n is For || n is FunDecl) ==> exec_stmt(n, st, fuel) is None,
{
    reveal(exec_stmt);
}

/// Registers the function under its name, replacing any of the same name.
fn declare(d: &FunctionDeclare, scope: &mut Scope, fuel: u64) -> (r: Result<Obj, RuntimeError>)
    ensures
        old(scope).wf() ==> final(scope).wf(),
        r == Ok::<Obj, RuntimeError>(Obj::Invalid),
        outcome_matches(
            exec_stmt(node_view(Node::FunDecl(*d)), frame_view(*old(scope)), fuel as nat + 1),
            r,
            *final(scope),
            fuel,
        ),
        final(scope).vars == old(scope).vars,
        fun_index(final(scope).funs@, d.name@) is Some,
        frame_view(*final(scope)) == (FrameV {
            funs: set_fun_value(
                frame_view(*old(scope)).funs,
                d.name@,
                FunV { params: names_view(d.args@), body: nodes_view(d.body.nodes@) },
            ),
            ..frame_view(*old(scope))
        }),
{
    proof {
        reveal(exec_stmt);
    }
    let fun = Fun { args: copy_names(&d.args), body: share(&d.body) };
    set_fun(&mut scope.funs, &d.name, fun);
    Ok(Obj::Invalid)
}

/// Evaluates the expression for its effects.
fn eval_expr_stat<H: Host>(e: &ExprStat, scope: &mut Scope, host: &mut H, fuel: &mut u64) -> (r:
    Result<Obj, RuntimeError>)
    ensures
        old(scope).wf() ==> final(scope).wf(),
        r is Ok ==> r == Ok::<Obj, RuntimeError>(Obj::Invalid),
        *final(fuel) <= *old(fuel),
        *final(scope) == *old(scope),
        outcome_matches(
            exec_stmt(node_view(Node::Expr(*e)), frame_view(*old(scope)), *old(fuel) as nat + 1),
            r,
            *final(scope),
            *final(fuel),
        ),
    decreases *old(fuel), 4nat,
{
    proof {
        reveal(exec_stmt);
    }
    eval_expr(&e.expr, scope, host, fuel)?;
    Ok(Obj::Invalid)
}

/// Sets the return value, where there is one, and the return signal.
fn eval_return<H: Host>(ret: &ReturnStat, scope: &mut Scope, host: &mut H, fuel: &mut u64) -> (r:
    Result<Obj, RuntimeError>)
    ensures
        old(scope).wf() ==> final(scope).wf(),
        r is Ok ==> r == Ok::<Obj, RuntimeError>(Obj::Invalid),
        ret.expr is None ==> final(scope).ret_val == old(scope).ret_val,
        *final(fuel) <= *old(fuel),
        r is Ok ==> final(scope).ret_flag,
        final(scope).vars == old(scope).vars,
        final(scope).funs == old(scope).funs,
        outcome_matches(
            exec_stmt(node_view(Node::Return(*ret)), frame_view(*old(scope)), *old(fuel) as nat + 1),
            r,
            *final(scope),
            *final(fuel),
        ),
    decreases *old(fuel), 4nat,
{
    proof {
        reveal(exec_stmt);
    }
    match &ret.expr {
        Some(e) => {
            let v = eval_expr(e, scope, host, fuel)?;
            scope.ret_val = v;
        },
        None => {},
    }
    scope.ret_flag = true;
    Ok(Obj::Invalid)
}

/// Evaluates the condition, then the block where it reads as true, else the
/// `elif` or `else` part where there is one.
fn eval_if<H: Host>(i: &IfStat, scope: &mut Scope, host: &mut H, fuel: &mut u64) -> (r: Result<
    Obj,
    RuntimeError,
>)
    ensures
        old(scope).wf() ==> final(scope).wf(),
        r is Ok && (i.else_block matches Some(e) ==> plain_statement(*e)) ==> r == Ok::<Obj, RuntimeError>(Obj::Invalid),
        *final(fuel) <= *old(fuel),
        outcome_matches(
            exec_stmt(node_view(Node::If(*i)), frame_view(*old(scope)), *old(fuel) as nat + 1),
            r,
            *final(scope),
            *final(fuel),
        ),
    decreases *old(fuel), 4nat,
{
    proof {
        reveal(exec_stmt);
    }
    let cond = eval_expr(&i.condition, scope, host, fuel)?;
    if truthiness(&cond) {
        eval_seq(&i.if_block.nodes, scope, host, fuel)
    } else {
        match &i.else_block {
            Some(e) => eval(e, scope, host, fuel),
            None => Ok(Obj::Invalid),
        }
    }
}

/// Evaluates the condition and, while it reads as true, the body, in the
/// scope itself.
#[verifier::rlimit(60)]
#[verifier::spinoff_prover]
fn eval_while<H: Host>(w: &WhileStat, scope: &mut Scope, host: &mut H, fuel: &mut u64) -> (r:
    Result<Obj, RuntimeError>)
    ensures
        old(scope).wf() ==> final(scope).wf(),
        r is Ok ==> r == Ok::<Obj, RuntimeError>(Obj::Invalid),
        *final(fuel) <= *old(fuel),
        literal_truth(*w.condition) == Some(false) ==> (r is Ok ==> *final(scope) == *old(scope))
            && (*old(fuel) >= 1 ==> r is Ok),
        literal_truth(*w.condition) == Some(true) ==> r is Err,
        outcome_matches(
            exec_while(
                node_view(*w.condition),
                nodes_view(w.body.nodes@),
                frame_view(*old(scope)),
                *old(fuel) as nat,
            ),
            r,
            *final(scope),
            *final(fuel),
        ),
    decreases *old(fuel), 4nat,
{
    let ghost cv = node_view(*w.condition);
    let ghost bv = nodes_view(w.body.nodes@);
    let ghost g = exec_while(cv, bv, frame_view(*old(scope)), *old(fuel) as nat);
    loop
        invariant_except_break
            literal_truth(*w.condition) == Some(false) && *old(fuel) >= 1 ==> *fuel >= 1,
            g is Some ==> exec_while(cv, bv, frame_view(*scope), *fuel as nat) == g,
        invariant
            *fuel <= *old(fuel),
            *old(scope) == *scope || literal_truth(*w.condition) != Some(false),
            cv == node_view(*w.condition),
            bv == nodes_view(w.body.nodes@),
            g == exec_while(cv, bv, frame_view(*old(scope)), *old(fuel) as nat),
            old(scope).wf() ==> scope.wf(),
        ensures
            old(scope).wf() ==> scope.wf(),
            g == exec_while(cv, bv, frame_view(*old(scope)), *old(fuel) as nat),
            *fuel <= *old(fuel),
            *old(scope) == *scope || literal_truth(*w.condition) != Some(false),
            literal_truth(*w.condition) != Some(true),
            g is Some ==> g == Some(
                (Ok::<ObjV, ErrV>(ObjV::Invalid), frame_view(*scope), *fuel as nat),
            ),
        decreases *fuel,
    {
        let cond = eval_expr(&w.condition, scope, host, fuel)?;
        if !truthiness(&cond) {
            proof {
                let c = *w.condition;
                if c is Int && c->Int_0.value != 0 {
                    lemma_cast_nonzero(c->Int_0.value);
                }
            }
            break;
        }
        eval_seq(&w.body.nodes, scope, host, fuel)?;
    }
    Ok(Obj::Invalid)
}

/// Evaluates the array expression, then the body once for each element, in
/// order, each time in a fresh copy of the scope where the element is bound.
#[verifier::rlimit(100)]
#[verifier::spinoff_prover]
fn eval_for<H: Host>(f: &ForStat, scope: &mut Scope, host: &mut H, fuel: &mut u64) -> (r: Result<
    Obj,
    RuntimeError,
>)
    ensures
        old(scope).wf() ==> final(scope).wf(),
        r is Ok ==> r == Ok::<Obj, RuntimeError>(Obj::Invalid),
        *final(fuel) <= *old(fuel),
        *final(scope) == *old(scope),
        outcome_matches(
            exec_for_stat(
                f.elem_name@,
                node_view(*f.array),
                nodes_view(f.body.nodes@),
                frame_view(*old(scope)),
                *old(fuel) as nat,
            ),
            r,
            *final(scope),
            *final(fuel),
        ),
    decreases *old(fuel), 4nat,
{
    let items = match eval_expr(&f.array, scope, host, fuel)? {
        Obj::Array(items) => items,
        _ => {
            return Err(RuntimeError::NotAnArray);
        },
    };
    let ghost vs = objs_view(items@);
    let ghost st0 = frame_view(*scope);
    let ghost bv = nodes_view(f.body.nodes@);
    let ghost f0 = *fuel as nat;
    let ghost g = exec_for(f.elem_name@, vs, bv, st0, f0);
    let ghost whole = exec_for_stat(
        f.elem_name@,
        node_view(*f.array),
        bv,
        frame_view(*old(scope)),
        *old(fuel) as nat,
    );
    assert(whole is Some ==> whole == g);
    proof {
        lemma_objs_view_index(items@);
        assert(vs.skip(0) =~= vs);
    }
    let mut k: usize = 0;
    while k < items.len()
        invariant
            k <= items.len(),
            *fuel <= *old(fuel),
            *scope == *old(scope),
            vs == objs_view(items@),
            vs.len() == items@.len(),
            st0 == frame_view(*scope),
            bv == nodes_view(f.body.nodes@),
            g == exec_for(f.elem_name@, vs, bv, st0, f0),
            whole == exec_for_stat(
                f.elem_name@,
                node_view(*f.array),
                bv,
                frame_view(*old(scope)),
                *old(fuel) as nat,
            ),
            whole is Some ==> whole == g,
            g is Some ==> exec_for(f.elem_name@, vs.skip(k as int), bv, st0, *fuel as nat) == g,
        decreases items.len() - k,
    {
        proof {
            lemma_objs_view_index(items@);
            assert(vs.skip(k as int)[0] == vs[k as int]);
            assert(vs.skip(k as int).drop_first() =~= vs.skip(k + 1));
        }
        let mut inner = scope.duplicate();
        let item = items[k].copy();
        set_var(&mut inner.vars, &f.elem_name, item);
        let ghost rest = vs.skip(k as int);
        let ghost st_k = FrameV { vars: set_value(st0.vars, f.elem_name@, rest[0]), ..st0 };
        let ghost f_k = *fuel as nat;
        assert(frame_view(inner) == st_k);
        let step = eval_seq(&f.body.nodes, &mut inner, host, fuel);
        proof {
            if g is Some {
                assert(exec_for(f.elem_name@, rest, bv, st0, f_k) == match exec_seq(bv, st_k, f_k) {
                    Some((Ok(_), _, f2)) => if f2 <= f_k {
                        exec_for(f.elem_name@, rest.drop_first(), bv, st0, f2)
                    } else {
                        None
                    },
                    Some((Err(e), _, _)) => Some((Err(e), st0, 0)),
                    None => None,
                });
            }
        }
        if let Err(e) = step {
            return Err(e);
        }
        k = k + 1;
    }
    proof {
        assert(vs.skip(k as int) =~= Seq::<ObjV>::empty());
    }
    Ok(Obj::Invalid)
}

/// A node that can be evaluated against a scope.
pub trait Nodeable {
    fn eval<H: Host>(&self, scope: &mut Scope, host: &mut H, fuel: &mut u64) -> Result<
        Obj,
        RuntimeError,
    >;
}

impl Nodeable for Node {
    fn eval<H: Host>(&self, scope: &mut Scope, host: &mut H, fuel: &mut u64) -> Result<
        Obj,
        RuntimeError,
    > {
        eval(self, scope, host, fuel)
    }
}

impl Nodeable for StatSeq {
    fn eval<H: Host>(&self, scope: &mut Scope, host: &mut H, fuel: &mut u64) -> Result<
        Obj,
        RuntimeError,
    > {
        eval_seq(&self.nodes, scope, host, fuel)
    }
}

/// A runtime error with its text as sequences of characters.
pub enum ErrV {
    Mismatch(BinOp),
    UnaryMismatch(Seq<char>),
    Overflow,
    DivisionByZero,
    Redefinition(Seq<char>),
    Undefined(Seq<char>),
    UndeclaredFunction(Seq<char>),
    NotAnArray,
    RenderInvalid,
    UnknownMember(Seq<char>, Seq<char>),
    MissingArgument,
    Malformed,
    OutOfSteps,
}

pub open spec fn err_view(e: RuntimeError) -> ErrV {
    match e {
        RuntimeError::Mismatch(o) => ErrV::Mismatch(o),
        RuntimeError::UnaryMismatch(s) => ErrV::UnaryMismatch(s@),
        RuntimeError::Overflow => ErrV::Overflow,
        RuntimeError::DivisionByZero => ErrV::DivisionByZero,
        RuntimeError::Redefinition(s) => ErrV::Redefinition(s@),
        RuntimeError::Undefined(s) => ErrV::Undefined(s@),
        RuntimeError::UndeclaredFunction(s) => ErrV::UndeclaredFunction(s@),
        RuntimeError::NotAnArray => ErrV::NotAnArray,
        RuntimeError::RenderInvalid => ErrV::RenderInvalid,
        RuntimeError::UnknownMember(a, b) => ErrV::UnknownMember(a@, b@),
        RuntimeError::MissingArgument => ErrV::MissingArgument,
        RuntimeError::Malformed => ErrV::Malformed,
        RuntimeError::OutOfSteps => ErrV::OutOfSteps,
    }
}

pub open spec fn res_view(r: Result<Obj, RuntimeError>) -> Result<ObjV, ErrV> {
    match r {
        Ok(o) => Ok(obj_view(o)),
        Err(e) => Err(err_view(e)),
    }
}

/// What `a op b` gives, where no float arithmetic decides it (`None` where
/// it does).
pub open spec fn binary_value(op: Seq<char>, a: ObjV, b: ObjV) -> Option<Result<ObjV, ErrV>> {
    if a is Nil || b is Nil {
        Some(Ok(ObjV::Nil))
    } else {
        match bin_op_of(op) {
            None => Some(Ok(ObjV::Invalid)),
            Some(o) => match (a, b) {
                (ObjV::Int(x), ObjV::Int(y)) => Some(res_view(int_outcome(o, x, y))),
                (ObjV::Float(_), ObjV::Float(_)) => if is_arith(o) || is_compare(o) {
                    None
                } else {
                    Some(Err(ErrV::Mismatch(o)))
                },
                (ObjV::Str(x), ObjV::Str(y)) => if o == BinOp::Add {
                    Some(Ok(ObjV::Str(x + y)))
                } else {
                    Some(Err(ErrV::Mismatch(o)))
                },
                (ObjV::Bool(x), ObjV::Bool(y)) => if o == BinOp::And {
                    Some(Ok(ObjV::Bool(x && y)))
                } else if o == BinOp::Or {
                    Some(Ok(ObjV::Bool(x || y)))
                } else {
                    Some(Err(ErrV::Mismatch(o)))
                },
                _ => Some(Err(ErrV::Mismatch(o))),
            },
        }
    }
}

/// What a unary operator gives.
pub open spec fn unary_value(op: Seq<char>, v: ObjV) -> Result<ObjV, ErrV> {
    match v {
        ObjV::Bool(x) if op == "!"@ => Ok(ObjV::Bool(!x)),
        ObjV::Int(x) if op == "-"@ => if in_i64(-x) {
            Ok(ObjV::Int((-x) as i64))
        } else {
            Err(ErrV::Overflow)
        },
        ObjV::Float(bits) if op == "-"@ => Ok(ObjV::Float(bits ^ 0x8000_0000_0000_0000)),
        _ => Err(ErrV::UnaryMismatch(op)),
    }
}

proof fn lemma_nodes_view_index(s: Seq<Node>)
    ensures
        nodes_view(s).len() == s.len(),
        forall|i: int| 0 <= i < s.len() ==> #[trigger] nodes_view(s)[i] == node_view(s[i]),
    decreases s.len(),
{
    if s.len() > 0 {
        lemma_nodes_view_index(s.drop_last());
    }
}

/// A frame as its variables, functions and return signal.
pub struct FrameV {
    pub vars: Seq<(Seq<char>, ObjV)>,
    pub funs: Seq<(Seq<char>, FunV)>,
    pub ret_val: ObjV,
    pub ret_flag: bool,
}

pub open spec fn frame_view(s: Scope) -> FrameV {
    FrameV {
        vars: vars_view(s.vars@),
        funs: funs_view(s.funs@),
        ret_val: obj_view(s.ret_val),
        ret_flag: s.ret_flag,
    }
}

/// The variables with `name` bound to `v`: its first entry is rebound, or
/// an entry is added at the end.
pub open spec fn set_value(vars: Seq<(Seq<char>, ObjV)>, name: Seq<char>, v: ObjV) -> Seq<
    (Seq<char>, ObjV),
> {
    match index_of(vars, name) {
        Some(i) => vars.update(i, (name, v)),
        None => vars.push((name, v)),
    }
}

pub open spec fn truthy_value(v: ObjV) -> bool {
    match v {
        ObjV::Bool(x) => x,
        ObjV::Nil => false,
        ObjV::Invalid => false,
        ObjV::Str(s) => s.len() > 0,
        ObjV::Int(x) => x != 0,
        ObjV::Float(bits) => float_nonzero(bits),
        ObjV::Array(vs) => vs.len() > 0,
    }
}

/// The operator of an assigning operator.
pub open spec fn base_of(op: Seq<char>) -> Option<Seq<char>> {
    if op == "+="@ {
        Some("+"@)
    } else if op == "-="@ {
        Some("-"@)
    } else if op == "*="@ {
        Some("*"@)
    } else if op == "/="@ {
        Some("/"@)
    } else {
        None
    }
}

/// The parameters bound to the arguments, pairwise, in order; extra
/// arguments or parameters are left out.
pub open spec fn bind_params(vars: Seq<(Seq<char>, ObjV)>, params: Seq<Seq<char>>, vals: Seq<ObjV>) -> Seq<
    (Seq<char>, ObjV),
>
    decreases params.len(),
{
    if params.len() == 0 || vals.len() == 0 {
        vars
    } else {
        bind_params(set_value(vars, params[0], vals[0]), params.drop_first(), vals.drop_first())
    }
}

/// What an expression gives and the steps left after it, where no float
/// arithmetic decides it (`None` where it does). Each node takes one step.
/// A call evaluates its arguments left to right, then the body in a copy of
/// the frame where the parameters are bound, and gives the value returned.
/// After an error only the error is stated.
pub open spec fn eval_e(n: NodeV, st: FrameV, fuel: nat) -> Option<(Result<ObjV, ErrV>, nat)>
    decreases fuel, 0nat, 0nat,
{
    if fuel == 0 {
        Some((Err(ErrV::OutOfSteps), 0))
    } else {
        let f = (fuel - 1) as nat;
        match n {
            NodeV::Int(v) => Some((Ok(ObjV::Int(v as i64)), f)),
            NodeV::Str(s) => Some((Ok(ObjV::Str(s)), f)),
            NodeV::Var(x) => Some(
                (
                    match index_of(st.vars, x) {
                        Some(i) => Ok(st.vars[i].1),
                        None => Err(ErrV::Undefined(x)),
                    },
                    f,
                ),
            ),
            NodeV::Unary(op, e) => match eval_e(*e, st, f) {
                Some((Ok(v), f1)) => Some((unary_value(op, v), f1)),
                other => other,
            },
            NodeV::Binary(op, l, r) => match eval_e(*l, st, f) {
                Some((Ok(a), f1)) => if f1 <= f {
                    match eval_e(*r, st, f1) {
                        Some((Ok(b), f2)) => match binary_value(op, a, b) {
                            Some(x) => Some((x, f2)),
                            None => None,
                        },
                        other => other,
                    }
                } else {
                    None
                },
                other => other,
            },
            NodeV::Array(es) => match eval_es(es, st, f) {
                Some((Ok(vs), f1)) => Some((Ok(ObjV::Array(vs)), f1)),
                Some((Err(x), f1)) => Some((Err(x), f1)),
                None => None,
            },
            NodeV::Call(name, args) => match eval_es(args, st, f) {
                Some((Ok(vals), f1)) => match fun_of(st.funs, name) {
                    None => Some((Err(ErrV::UndeclaredFunction(name)), f1)),
                    Some(i) => if f1 <= f {
                        let fun = st.funs[i].1;
                        let inner = FrameV {
                            vars: bind_params(st.vars, fun.params, vals),
                            funs: st.funs,
                            ret_val: ObjV::Invalid,
                            ret_flag: false,
                        };
                        match exec_seq(fun.body, inner, f1) {
                            Some((Ok(_), st2, f2)) => Some((Ok(st2.ret_val), f2)),
                            Some((Err(e), _, f2)) => Some((Err(e), f2)),
                            None => None,
                        }
                    } else {
                        None
                    },
                },
                Some((Err(x), f1)) => Some((Err(x), f1)),
                None => None,
            },
            NodeV::Module(m, name, args) => if !(m == "io"@ && name == "println"@) {
                Some((Err(ErrV::UnknownMember(m, name)), f))
            } else if args.len() == 0 {
                Some((Err(ErrV::MissingArgument), f))
            } else {
                match eval_e(args[0], st, f) {
                    Some((Ok(v), f1)) => if has_invalid(v) {
                        Some((Err(ErrV::RenderInvalid), f1))
                    } else {
                        Some((Ok(ObjV::Invalid), f1))
                    },
                    other => other,
                }
            },
            NodeV::Float(_) => None,
            _ => Some((Err(ErrV::Malformed), f)),
        }
    }
}

/// Expressions evaluated left to right, up to the first error.
pub open spec fn eval_es(es: Seq<NodeV>, st: FrameV, fuel: nat) -> Option<
    (Result<Seq<ObjV>, ErrV>, nat),
>
    decreases fuel, 1nat, es.len(),
{
    if es.len() == 0 {
        Some((Ok(Seq::empty()), fuel))
    } else {
        match eval_e(es[0], st, fuel) {
            Some((Ok(v), f1)) => if f1 <= fuel {
                match eval_es(es.drop_first(), st, f1) {
                    Some((Ok(vs), f2)) => Some((Ok(seq![v] + vs), f2)),
                    other => other,
                }
            } else {
                None
            },
            Some((Err(x), f1)) => Some((Err(x), f1)),
            None => None,
        }
    }
}

/// The evaluation ended as the expression semantics says, where it says
/// anything.
pub open spec fn expr_matches(g: Option<(Result<ObjV, ErrV>, nat)>, r: Result<Obj, RuntimeError>, after: u64) -> bool {
    match g {
        Some((Ok(v), f)) => (r matches Ok(x) && obj_view(x) == v) && after == f,
        Some((Err(e), _)) => r matches Err(x) && err_view(x) == e,
        None => true,
    }
}

pub open spec fn list_matches(
    g: Option<(Result<Seq<ObjV>, ErrV>, nat)>,
    r: Result<Vec<Obj>, RuntimeError>,
    after: u64,
) -> bool {
    match g {
        Some((Ok(vs), f)) => (r matches Ok(x) && objs_view(x@) == vs) && after == f,
        Some((Err(e), _)) => r matches Err(x) && err_view(x) == e,
        None => true,
    }
}

pub open spec fn prepend_ok(pre: Seq<ObjV>, g: Option<(Result<Seq<ObjV>, ErrV>, nat)>) -> Option<
    (Result<Seq<ObjV>, ErrV>, nat),
> {
    match g {
        Some((Ok(vs), f)) => Some((Ok(pre + vs), f)),
        other => other,
    }
}

/// What an assignment gives (see `eval_assign`).
pub open spec fn assign_step(name: Seq<char>, op: ClassView, e: NodeV, st: FrameV, fuel: nat) -> Option<
    (Result<ObjV, ErrV>, FrameV, nat),
>
    decreases fuel, 1nat, 0nat,
{
    let bound = index_of(st.vars, name);
    let rebind = |v: ObjV| FrameV { vars: set_value(st.vars, name, v), ..st };
    match op {
        ClassView::Define | ClassView::Assign => if op is Define && bound is Some {
            Some((Err(ErrV::Redefinition(name)), st, 0))
        } else if op is Assign && bound is None {
            Some((Err(ErrV::Undefined(name)), st, 0))
        } else {
            match eval_e(e, st, fuel) {
                Some((Ok(v), f)) => Some((Ok(ObjV::Invalid), rebind(v), f)),
                Some((Err(x), _)) => Some((Err(x), st, 0)),
                None => None,
            }
        },
        ClassView::AssignOp(x) => match eval_e(e, st, fuel) {
            Some((Ok(v), f)) => match bound {
                None => Some((Err(ErrV::Undefined(name)), st, 0)),
                Some(i) => match base_of(x) {
                    None => Some((Err(ErrV::Malformed), st, 0)),
                    Some(b) => match binary_value(b, st.vars[i].1, v) {
                        Some(Ok(w)) => Some((Ok(ObjV::Invalid), rebind(w), f)),
                        Some(Err(y)) => Some((Err(y), st, 0)),
                        None => None,
                    },
                },
            },
            Some((Err(y), _)) => Some((Err(y), st, 0)),
            None => None,
        },
        _ => Some((Err(ErrV::Malformed), st, 0)),
    }
}

/// What a statement gives, the frame after it and the steps left, where no
/// function, module or float arithmetic decides it (`None` where one does).
/// Errors end the program: after one, only the error is stated.
#[verifier::opaque]
pub open spec fn exec_stmt(n: NodeV, st: FrameV, fuel: nat) -> Option<
    (Result<ObjV, ErrV>, FrameV, nat),
>
    decreases fuel, 0nat, 0nat,
{
    if fuel == 0 {
        Some((Err(ErrV::OutOfSteps), st, 0))
    } else {
        let f = (fuel - 1) as nat;
        match n {
            NodeV::Block(ns) => exec_seq(ns, st, f),
            NodeV::Import(_) => Some((Ok(ObjV::Invalid), st, f)),
            NodeV::FunDecl(name, params, body) => Some(
                (
                    Ok(ObjV::Invalid),
                    FrameV {
                        funs: set_fun_value(st.funs, name, FunV { params, body }),
                        ..st
                    },
                    f,
                ),
            ),
            NodeV::Assign(name, op, e) => assign_step(name, op, *e, st, f),
            NodeV::Return(None) => Some((Ok(ObjV::Invalid), FrameV { ret_flag: true, ..st }, f)),
            NodeV::Return(Some(e)) => match eval_e(*e, st, f) {
                Some((Ok(v), f2)) => Some(
                    (Ok(ObjV::Invalid), FrameV { ret_val: v, ret_flag: true, ..st }, f2),
                ),
                Some((Err(x), _)) => Some((Err(x), st, 0)),
                None => None,
            },
            NodeV::Expr(e) => match eval_e(*e, st, f) {
                Some((Ok(_), f2)) => Some((Ok(ObjV::Invalid), st, f2)),
                Some((Err(x), _)) => Some((Err(x), st, 0)),
                None => None,
            },
            NodeV::If(c, b, els) => match eval_e(*c, st, f) {
                Some((Ok(v), f2)) => if f2 < fuel {
                    if truthy_value(v) {
                        exec_seq(b, st, f2)
                    } else {
                        match els {
                            Some(e) => exec_stmt(*e, st, f2),
                            None => Some((Ok(ObjV::Invalid), st, f2)),
                        }
                    }
                } else {
                    None
                },
                Some((Err(x), _)) => Some((Err(x), st, 0)),
                None => None,
            },
            NodeV::While(c, b) => exec_while(*c, b, st, f),
            NodeV::For(x, arr, b) => exec_for_stat(x, *arr, b, st, f),
            _ => None,
        }
    }
}

proof fn lemma_seq_unfold(ns: Seq<NodeV>, st: FrameV, fuel: nat)
    requires
        ns.len() > 0,
    ensures
        exec_seq(ns, st, fuel) == match exec_stmt(ns[0], st, fuel) {
            Some((Ok(_), st2, f2)) => if st2.ret_flag {
                Some((Ok(ObjV::Invalid), st2, f2))
            } else if f2 <= fuel {
                exec_seq(ns.drop_first(), st2, f2)
            } else {
                None
            },
            Some((Err(e), _, _)) => Some((Err(e), st, 0)),
            None => None,
        },
{
    reveal(exec_stmt);
    reveal_with_fuel(exec_seq, 2);
}

/// Statements in order, up to the first that sets the return signal.
pub open spec fn exec_seq(ns: Seq<NodeV>, st: FrameV, fuel: nat) -> Option<
    (Result<ObjV, ErrV>, FrameV, nat),
>
    decreases fuel, 1nat, ns.len(),
{
    if ns.len() == 0 {
        Some((Ok(ObjV::Invalid), st, fuel))
    } else {
        match exec_stmt(ns[0], st, fuel) {
            Some((Ok(_), st2, f2)) => if st2.ret_flag {
                Some((Ok(ObjV::Invalid), st2, f2))
            } else if f2 <= fuel {
                exec_seq(ns.drop_first(), st2, f2)
            } else {
                None
            },
            Some((Err(e), _, _)) => Some((Err(e), st, 0)),
            None => None,
        }
    }
}

/// The condition, and the body in the same frame, until the condition reads
/// as false.
pub open spec fn exec_while(c: NodeV, b: Seq<NodeV>, st: FrameV, fuel: nat) -> Option<
    (Result<ObjV, ErrV>, FrameV, nat),
>
    decreases fuel, 2nat, 0nat,
{
    match eval_e(c, st, fuel) {
        Some((Ok(v), f1)) => if !truthy_value(v) {
            Some((Ok(ObjV::Invalid), st, f1))
        } else if f1 < fuel {
            match exec_seq(b, st, f1) {
                Some((Ok(_), st2, f2)) => if f2 < fuel {
                    exec_while(c, b, st2, f2)
                } else {
                    None
                },
                Some((Err(e), _, _)) => Some((Err(e), st, 0)),
                None => None,
            }
        } else {
            None
        },
        Some((Err(e), _)) => Some((Err(e), st, 0)),
        None => None,
    }
}

/// The array expression, then the body for each of its elements.
pub open spec fn exec_for_stat(x: Seq<char>, arr: NodeV, b: Seq<NodeV>, st: FrameV, fuel: nat) -> Option<
    (Result<ObjV, ErrV>, FrameV, nat),
>
    decreases fuel, 3nat, 0nat,
{
    match eval_e(arr, st, fuel) {
        Some((Ok(ObjV::Array(vs)), f2)) => if f2 <= fuel {
            exec_for(x, vs, b, st, f2)
        } else {
            None
        },
        Some((Ok(_), _)) => Some((Err(ErrV::NotAnArray), st, 0)),
        Some((Err(y), _)) => Some((Err(y), st, 0)),
        None => None,
    }
}

/// The body once for each element, in order, each time in a copy of the
/// frame where `x` is bound to the element; the frame itself is kept.
pub open spec fn exec_for(x: Seq<char>, vs: Seq<ObjV>, b: Seq<NodeV>, st: FrameV, fuel: nat) -> Option<
    (Result<ObjV, ErrV>, FrameV, nat),
>
    decreases fuel, 2nat, vs.len(),
{
    if vs.len() == 0 {
        Some((Ok(ObjV::Invalid), st, fuel))
    } else {
        let inner = FrameV { vars: set_value(st.vars, x, vs[0]), ..st };
        match exec_seq(b, inner, fuel) {
            Some((Ok(_), _, f2)) => if f2 <= fuel {
                exec_for(x, vs.drop_first(), b, st, f2)
            } else {
                None
            },
            Some((Err(e), _, _)) => Some((Err(e), st, 0)),
            None => None,
        }
    }
}

/// The evaluation ended as the statement semantics says, where it says
/// anything: with the value, the frame and the steps left, or with the error.
pub open spec fn outcome_matches(
    g: Option<(Result<ObjV, ErrV>, FrameV, nat)>,
    r: Result<Obj, RuntimeError>,
    after: Scope,
    fuel_after: u64,
) -> bool {
    match g {
        Some((Ok(v), st, f)) => (r matches Ok(x) && obj_view(x) == v) && frame_view(after) == st
            && fuel_after == f,
        Some((Err(e), _, _)) => r matches Err(x) && err_view(x) == e,
        None => true,
    }
}

/// Either operand `Nil` makes every binary operation `Nil`, whatever the
/// other operand and the operator.
pub proof fn nil_propagates(op: Seq<char>, v: Obj, r1: Result<Obj, RuntimeError>, r2: Result<
    Obj,
    RuntimeError,
>)
    requires
        binary_outcome(op, Obj::Nil, v, r1),
        binary_outcome(op, v, Obj::Nil, r2),
    ensures
        r1 == Ok::<Obj, RuntimeError>(Obj::Nil),
        r2 == Ok::<Obj, RuntimeError>(Obj::Nil),
{
}

/// No operator mixes an integer with a float, in either order: each one is a
/// type error.
pub proof fn no_mixed_numbers(op: Seq<char>, x: i64, y: u64, r1: Result<Obj, RuntimeError>, r2:
    Result<Obj, RuntimeError>)
    requires
        bin_op_of(op) is Some,
        binary_outcome(op, Obj::Int(x), Obj::Float(y), r1),
        binary_outcome(op, Obj::Float(y), Obj::Int(x), r2),
    ensures
        r1 == Err::<Obj, RuntimeError>(RuntimeError::Mismatch(bin_op_of(op)->0)),
        r2 == Err::<Obj, RuntimeError>(RuntimeError::Mismatch(bin_op_of(op)->0)),
{
}

} // verus!
