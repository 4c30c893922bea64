use vstd::prelude::*;
use crate::executor::{err_view, eval_seq, exec_seq, ErrV, FrameV, FunV, Host, ObjV, RuntimeError, Scope};
use crate::lexer::{lex, lex_all, LexError, ParseError};
use crate::parser::{parsed_seq, StatSeq};

verus! {

/// Why a program stopped: an error of one of the three stages.
#[derive(Debug)]
pub enum ScriptError {
    Lex(LexError),
    Parse(ParseError),
    Runtime(RuntimeError),
}

/// The frame that a program starts in.
pub open spec fn empty_frame() -> FrameV {
    FrameV { vars: Seq::empty(), funs: Seq::empty(), ret_val: ObjV::Invalid, ret_flag: false }
}

/// How a program's evaluation ends, where the statement semantics decides
/// it: the text is split into tokens, parsed, and evaluated in an empty
/// frame.
pub open spec fn program_result(source: Seq<char>, fuel: nat) -> Option<Result<(), ErrV>> {
    let lexed = lex_all(source);
    if lexed.failed is Some {
        None
    } else {
        match parsed_seq(lexed.tokens, 0) {
            Some((prog, _)) => match exec_seq(prog, empty_frame(), fuel) {
                Some((Ok(_), _, _)) => Some(Ok(())),
                Some((Err(e), _, _)) => Some(Err(e)),
                None => None,
            },
            None => None,
        }
    }
}

pub open spec fn ends_as(expected: Option<Result<(), ErrV>>, r: Result<(), ScriptError>) -> bool {
    match expected {
        Some(Ok(())) => r is Ok,
        Some(Err(e)) => r matches Err(ScriptError::Runtime(x)) && err_view(x) == e,
        None => true,
    }
}

/// Runs a program: its text is split into tokens, parsed up to the end or to
/// an unmatched `}`, and evaluated in a fresh scope with at most `fuel`
/// evaluation steps.
pub fn run<H: Host>(source: &String, host: &mut H, fuel: u64) -> (r: Result<(), ScriptError>)
    requires
        source@.len() < u32::MAX,
    ensures
        lex_all(source@).failed is Some <==> r matches Err(ScriptError::Lex(_)),
        r matches Err(ScriptError::Lex(e)) ==> lex_all(source@).failed == Some(e@),
        lex_all(source@).failed is None ==> (r matches Err(ScriptError::Parse(_)) <==> parsed_seq(
            lex_all(source@).tokens,
            0,
        ) is None),
        ends_as(program_result(source@, fuel as nat), r),
{
    let mut stream = match lex(source) {
        Ok(s) => s,
        Err(e) => {
            return Err(ScriptError::Lex(e));
        },
    };
    let root = match StatSeq::parse(&mut stream) {
        Ok(root) => root,
        Err(e) => {
            return Err(ScriptError::Parse(e));
        },
    };
    let mut scope = Scope::new();
    let mut steps = fuel;
    proof {
        assert(crate::executor::vars_view(scope.vars@) =~= Seq::<(Seq<char>, ObjV)>::empty());
        assert(crate::executor::funs_view(scope.funs@) =~= Seq::<(Seq<char>, FunV)>::empty());
    }
    match eval_seq(&root.nodes, &mut scope, host, &mut steps) {
        Ok(_) => Ok(()),
        Err(e) => Err(ScriptError::Runtime(e)),
    }
}

} // verus!
