//! Running a whole program, one outside action at a time.
use vstd::prelude::*;
use crate::grammar::{derives, g_program, parse_program, parsed_block, ParseError, MAX_DEPTH};
use crate::parser::{
    block_view, code_lines, filter_comments, join_lines, lines_from, stmt_depth, Stmt, StmtV,
};
use crate::runtime::{RuntimeEnv, RuntimeVal, Scope};
use crate::visitor::{exec_block, Action, EvalError, Event, GeneralVisitor, Halt};

verus! {

/// What a program run asks for next.
#[derive(Debug, PartialEq)]
pub enum Step {
    /// Perform this action and report its event.
    Perform(Action),
    /// The program has ended: normally, or with the first error.
    Finished(Result<(), EvalError>),
}

/// The scope chain of a fresh run: one empty top-level scope.
pub open spec fn fresh_scopes() -> Seq<Scope> {
    seq![Seq::<(String, RuntimeVal)>::empty()]
}

/// The next step of a run of `ast` in a fresh environment, given the events
/// for the actions so far.
pub open spec fn next_step(ast: Seq<Stmt>, evs: Seq<Event>) -> Step {
    let (r, _, _) = exec_block(ast, fresh_scopes(), evs, 0);
    match r {
        Ok(()) => Step::Finished(Ok(())),
        Err(Halt::Waiting(a)) => Step::Perform(a),
        Err(Halt::Failed(e)) => Step::Finished(Err(e)),
    }
}

/// The text that printing a value shows, but for a number, whose decimal
/// form belongs to the host's formatting of doubles.
pub open spec fn text_of(v: RuntimeVal) -> Option<Seq<char>> {
    match v {
        RuntimeVal::Str(s) => Some(s@),
        RuntimeVal::Bool(true) => Some("true"@),
        RuntimeVal::Bool(false) => Some("false"@),
        RuntimeVal::Null => Some("null"@),
        _ => None,
    }
}

/// The text that printing `v` shows (without the newline), unless `v` is a
/// number or a reference.
pub fn display_text(v: &RuntimeVal) -> (r: Option<String>)
    ensures
        match r {
            Some(s) => text_of(*v) == Some(s@),
            None => text_of(*v) is None,
        },
{
    proof {
        reveal_strlit("true");
        reveal_strlit("false");
        reveal_strlit("null");
    }
    match v {
        RuntimeVal::Str(s) => Some(s.clone()),
        RuntimeVal::Bool(true) => Some(String::from_str("true")),
        RuntimeVal::Bool(false) => Some(String::from_str("false")),
        RuntimeVal::Null => Some(String::from_str("null")),
        _ => None,
    }
}

/// A copy of a list of events.
fn copy_events(evs: &Vec<Event>) -> (r: Vec<Event>)
    ensures
        r@ == evs@,
{
    let mut r: Vec<Event> = Vec::new();
    let mut i: usize = 0;
    while i < evs.len()
        invariant
            i <= evs@.len(),
            r@ == evs@.subrange(0, i as int),
        decreases evs@.len() - i,
    {
        r.push(evs[i].duplicate());
        i = i + 1;
        assert(r@ =~= evs@.subrange(0, i as int));
    }
    assert(r@ =~= evs@);
    r
}

/// The interpreter of one program, with the events for the actions that its
/// run has asked for so far.
///
/// Each step runs the program afresh, in a new environment, against those
/// events; so a run depends on the program and the events alone.
pub struct Interpreter {
    /// The ast to evaluate.
    pub ast: Vec<Stmt>,
    /// The events so far, in order.
    pub events: Vec<Event>,
}

impl Interpreter {
    /// Constructs a new interpreter with ast, before its first action.
    pub fn new(ast: Vec<Stmt>) -> (r: Self)
        ensures
            r.ast == ast,
            r.events@ == Seq::<Event>::empty(),
    {
        Interpreter { ast, events: Vec::new() }
    }

    /// The next step of the run.
    pub fn run(&self) -> (r: Step)
        ensures
            r == next_step(self.ast@, self.events@),
    {
        let mut visitor = GeneralVisitor::new(RuntimeEnv::empty(), copy_events(&self.events));
        match visitor.visit_program(&self.ast) {
            Ok(_) => Step::Finished(Ok(())),
            Err(Halt::Waiting(a)) => Step::Perform(a),
            Err(Halt::Failed(e)) => Step::Finished(Err(e)),
        }
    }

    /// Records the event for the last action handed out, and returns the next
    /// step.
    pub fn resume(&mut self, event: Event) -> (r: Step)
        ensures
            final(self).ast == old(self).ast,
            final(self).events@ == old(self).events@.push(event),
            r == next_step(final(self).ast@, final(self).events@),
    {
        self.events.push(event);
        self.run()
    }
}

/// Takes code, filters out its comment lines and parses it: the interpreter
/// that runs it from its first step, or why the code does not parse.
pub fn run_code(code: &str) -> (r: Result<Interpreter, ParseError>)
    ensures
        ({
            let kept = join_lines(code_lines(lines_from(code@, 0)));
            &&& r matches Ok(i) ==> derives(kept, block_view(i.ast@)) && i.events@ == Seq::<
                Event,
            >::empty() && parsed_block(i.ast@) && forall|k: int|
                0 <= k < i.ast@.len() ==> stmt_depth(#[trigger] i.ast@[k]) <= MAX_DEPTH
            &&& r matches Err(e) ==> g_program(kept) == Err::<Seq<StmtV>, ParseError>(e)
        }),
{
    let filtered = filter_comments(code);
    match parse_program(filtered.as_str()) {
        Ok(ast) => Ok(Interpreter::new(ast)),
        Err(e) => Err(e),
    }
}

} // verus!
