//! The evaluator.
//!
//! Evaluation never performs an outside effect itself. Whenever it needs one
//! (printing a line, reading a line, running a shell command, or computing
//! with doubles) it names it as an [`Action`]; whoever drives the evaluator
//! performs it and reports what happened as an [`Event`]. The visitor is given
//! the events for the actions so far; at the first action that has no event
//! yet it stops and hands that action out.
use vstd::prelude::*;
use crate::parser::{CompareOp, Expr, Op, Stmt};
use crate::runtime::{binding_count, bind_innermost, lookup, same_text, RuntimeEnv, RuntimeVal, Scope};

verus! {

/// An outside effect that evaluation needs.
#[derive(Debug, PartialEq)]
pub enum Action {
    /// Print a value, followed by a newline.
    Print(RuntimeVal),
    /// Read one line of standard input.
    ReadLine,
    /// Run a command line in the host shell and wait for it.
    Shell(String),
    /// Apply an arithmetic operator to two doubles (given by their bits).
    Arith(Op, u64, u64),
    /// Compare two doubles (given by their bits).
    CompareNumbers(CompareOp, u64, u64),
}

/// What came of an [`Action`].
#[derive(Debug, PartialEq)]
pub enum Event {
    /// The line was printed.
    Printed,
    /// A line was read, with its line terminator if the input had one.
    Line(String),
    /// The shell was launched and has finished.
    Launched,
    /// The result of an arithmetic action.
    Number(u64),
    /// The result of a comparison action.
    Truth(bool),
    /// Reading or launching failed, with a message.
    IoError(String),
}

impl Event {
    /// A copy of this event.
    pub fn duplicate(&self) -> (r: Event)
        ensures
            r == *self,
    {
        match self {
            Event::Printed => Event::Printed,
            Event::Line(s) => Event::Line(s.clone()),
            Event::Launched => Event::Launched,
            Event::Number(n) => Event::Number(*n),
            Event::Truth(t) => Event::Truth(*t),
            Event::IoError(m) => Event::IoError(m.clone()),
        }
    }
}

/// Why evaluation failed.
#[derive(Debug, PartialEq)]
pub enum EvalError {
    /// An operator or statement got an operand of the wrong kind.
    TypeMismatch,
    /// No binding of this name is in scope.
    UndefinedVariable(String),
    /// Following references from this name does not reach a value: the
    /// bindings refer to each other in a cycle.
    Unresolvable(String),
    /// Reading or launching failed.
    Io(String),
    /// An event that does not answer the action it was given for.
    UnexpectedEvent,
}

/// Why evaluation stopped before the end.
#[derive(Debug, PartialEq)]
pub enum Halt {
    /// This action has no event yet.
    Waiting(Action),
    /// Evaluation failed.
    Failed(EvalError),
}

/// The event for the next action, and the position after it; or, when all
/// events are used up, a halt that hands out the action.
pub open spec fn answer(a: Action, evs: Seq<Event>, pos: nat) -> (Result<Event, Halt>, nat) {
    if pos < evs.len() {
        (Ok(evs[pos as int]), pos + 1)
    } else {
        (Err(Halt::Waiting(a)), pos)
    }
}

/// Follows references to a value that is not a reference.
///
/// A reference whose name is unbound is an undefined variable; `fuel` is how
/// many references may be followed through bindings that are references
/// themselves.
pub open spec fn resolve(v: RuntimeVal, scopes: Seq<Scope>, fuel: nat) -> Result<RuntimeVal, EvalError>
    decreases fuel,
{
    match v {
        RuntimeVal::Ident(name) => match lookup(scopes, name@) {
            None => Err(EvalError::UndefinedVariable(name)),
            Some(w) => if w is Ident {
                if fuel == 0 {
                    Err(EvalError::Unresolvable(name))
                } else {
                    resolve(w, scopes, (fuel - 1) as nat)
                }
            } else {
                Ok(w)
            },
        },
        _ => Ok(v),
    }
}

/// Resolution with as much fuel as there are bindings: a longer chain of
/// references must visit some binding twice. A chain that does not end is
/// reported by the name that resolution started from.
pub open spec fn resolve_in(v: RuntimeVal, scopes: Seq<Scope>) -> Result<RuntimeVal, EvalError> {
    match resolve(v, scopes, binding_count(scopes)) {
        Err(EvalError::Unresolvable(_)) => Err(EvalError::Unresolvable(v->Ident_0)),
        r => r,
    }
}

/// An arithmetic operator applied to two evaluated operands.
pub open spec fn apply_arith(op: Op, l: RuntimeVal, r: RuntimeVal, evs: Seq<Event>, pos: nat) -> (
    Result<RuntimeVal, Halt>,
    nat,
) {
    match (l, r) {
        (RuntimeVal::Num(a), RuntimeVal::Num(b)) => {
            let (e, p) = answer(Action::Arith(op, a, b), evs, pos);
            match e {
                Ok(Event::Number(c)) => (Ok(RuntimeVal::Num(c)), p),
                Ok(_) => (Err(Halt::Failed(EvalError::UnexpectedEvent)), p),
                Err(h) => (Err(h), p),
            }
        },
        _ => (Err(Halt::Failed(EvalError::TypeMismatch)), pos),
    }
}

/// Equality operators on two values of a kind that is only compared for
/// equality.
pub open spec fn equality(op: CompareOp, same: bool) -> Result<RuntimeVal, EvalError> {
    match op {
        CompareOp::Equal => Ok(RuntimeVal::Bool(same)),
        CompareOp::NotEqual => Ok(RuntimeVal::Bool(!same)),
        _ => Err(EvalError::TypeMismatch),
    }
}

/// A comparison operator applied to two resolved operands.
pub open spec fn compare_values(
    op: CompareOp,
    l: RuntimeVal,
    r: RuntimeVal,
    evs: Seq<Event>,
    pos: nat,
) -> (Result<RuntimeVal, Halt>, nat) {
    match (l, r) {
        (RuntimeVal::Bool(a), RuntimeVal::Bool(b)) => (
            match equality(op, a == b) {
                Ok(v) => Ok(v),
                Err(e) => Err(Halt::Failed(e)),
            },
            pos,
        ),
        (RuntimeVal::Str(a), RuntimeVal::Str(b)) => (
            match equality(op, a@ == b@) {
                Ok(v) => Ok(v),
                Err(e) => Err(Halt::Failed(e)),
            },
            pos,
        ),
        (RuntimeVal::Num(a), RuntimeVal::Num(b)) => {
            let (e, p) = answer(Action::CompareNumbers(op, a, b), evs, pos);
            match e {
                Ok(Event::Truth(t)) => (Ok(RuntimeVal::Bool(t)), p),
                Ok(_) => (Err(Halt::Failed(EvalError::UnexpectedEvent)), p),
                Err(h) => (Err(h), p),
            }
        },
        _ => (Err(Halt::Failed(EvalError::TypeMismatch)), pos),
    }
}

/// A comparison operator applied to two evaluated operands, which are
/// resolved first, the left one before the right one.
pub open spec fn apply_compare(
    op: CompareOp,
    l: RuntimeVal,
    r: RuntimeVal,
    scopes: Seq<Scope>,
    evs: Seq<Event>,
    pos: nat,
) -> (Result<RuntimeVal, Halt>, nat) {
    match resolve_in(l, scopes) {
        Err(e) => (Err(Halt::Failed(e)), pos),
        Ok(lv) => match resolve_in(r, scopes) {
            Err(e) => (Err(Halt::Failed(e)), pos),
            Ok(rv) => compare_values(op, lv, rv, evs, pos),
        },
    }
}

/// What an expression evaluates to, given the scope chain and the events from
/// position `pos` on, and the position after the events it used.
///
/// An identifier evaluates to a reference, not to its value.
pub open spec fn eval_expr(e: Expr, scopes: Seq<Scope>, evs: Seq<Event>, pos: nat) -> (
    Result<RuntimeVal, Halt>,
    nat,
)
    decreases e,
{
    match e {
        Expr::Read => {
            let (r, p) = answer(Action::ReadLine, evs, pos);
            match r {
                Ok(Event::Line(s)) => (Ok(RuntimeVal::Str(s)), p),
                Ok(Event::IoError(m)) => (Err(Halt::Failed(EvalError::Io(m))), p),
                Ok(_) => (Err(Halt::Failed(EvalError::UnexpectedEvent)), p),
                Err(h) => (Err(h), p),
            }
        },
        Expr::Comparison { lhs, op, rhs } => {
            let (l, pl) = eval_expr(*lhs, scopes, evs, pos);
            match l {
                Err(h) => (Err(h), pl),
                Ok(lv) => {
                    let (r, pr) = eval_expr(*rhs, scopes, evs, pl);
                    match r {
                        Err(h) => (Err(h), pr),
                        Ok(rv) => apply_compare(op, lv, rv, scopes, evs, pr),
                    }
                },
            }
        },
        Expr::Binary(b) => {
            let (l, pl) = eval_expr(*b.lhs, scopes, evs, pos);
            match l {
                Err(h) => (Err(h), pl),
                Ok(lv) => {
                    let (r, pr) = eval_expr(*b.rhs, scopes, evs, pl);
                    match r {
                        Err(h) => (Err(h), pr),
                        Ok(rv) => apply_arith(b.op, lv, rv, evs, pr),
                    }
                },
            }
        },
        Expr::Bool(b) => (Ok(RuntimeVal::Bool(b)), pos),
        Expr::Num(n) => (Ok(RuntimeVal::Num(n)), pos),
        Expr::Str(s) => (Ok(RuntimeVal::Str(s)), pos),
        Expr::Ident(name) => (Ok(RuntimeVal::Ident(name)), pos),
    }
}

/// The outcome of an action that only needs to be acknowledged by `ok`.
pub open spec fn acknowledged(r: Result<Event, Halt>, ok: Event) -> Result<(), Halt> {
    match r {
        Ok(e) => if e == ok {
            Ok(())
        } else if e is IoError {
            Err(Halt::Failed(EvalError::Io(e->IoError_0)))
        } else {
            Err(Halt::Failed(EvalError::UnexpectedEvent))
        },
        Err(h) => Err(h),
    }
}

/// What a statement does: its outcome, the scope chain after it, and the
/// position after the events it used.
pub open spec fn exec_stmt(s: Stmt, scopes: Seq<Scope>, evs: Seq<Event>, pos: nat) -> (
    Result<(), Halt>,
    Seq<Scope>,
    nat,
)
    decreases s,
{
    match s {
        Stmt::If { comparison, code } => {
            let (c, p) = eval_expr(*comparison, scopes, evs, pos);
            match c {
                Err(h) => (Err(h), scopes, p),
                Ok(v) => match resolve_in(v, scopes) {
                    Err(e) => (Err(Halt::Failed(e)), scopes, p),
                    Ok(RuntimeVal::Bool(true)) => exec_block(code@, scopes, evs, p),
                    Ok(RuntimeVal::Bool(false)) => (Ok(()), scopes, p),
                    Ok(_) => (Err(Halt::Failed(EvalError::TypeMismatch)), scopes, p),
                },
            }
        },
        Stmt::Block(code) => exec_block(code@, scopes, evs, pos),
        Stmt::Bash(cmd) => {
            let (r, p) = answer(Action::Shell(cmd), evs, pos);
            (acknowledged(r, Event::Launched), scopes, p)
        },
        Stmt::Print(ps) => {
            let (c, p) = eval_expr(*ps.value, scopes, evs, pos);
            match c {
                Err(h) => (Err(h), scopes, p),
                Ok(v) => match resolve_in(v, scopes) {
                    Err(e) => (Err(Halt::Failed(e)), scopes, p),
                    Ok(w) => {
                        let (r, pr) = answer(Action::Print(w), evs, p);
                        (acknowledged(r, Event::Printed), scopes, pr)
                    },
                },
            }
        },
        Stmt::Assign(a) => {
            let (c, p) = eval_expr(*a.value, scopes, evs, pos);
            match c {
                Err(h) => (Err(h), scopes, p),
                Ok(v) => (Ok(()), bind_innermost(scopes, a.name, v), p),
            }
        },
        Stmt::Expr(e) => {
            let (c, p) = eval_expr(*e, scopes, evs, pos);
            match c {
                Err(h) => (Err(h), scopes, p),
                Ok(_) => (Ok(()), scopes, p),
            }
        },
    }
}

/// What a sequence of statements does, run in order until the first one that
/// stops.
pub open spec fn exec_block(ss: Seq<Stmt>, scopes: Seq<Scope>, evs: Seq<Event>, pos: nat) -> (
    Result<(), Halt>,
    Seq<Scope>,
    nat,
)
    decreases ss,
{
    if ss.len() == 0 {
        (Ok(()), scopes, pos)
    } else {
        let (r, sc, p) = exec_stmt(ss[0], scopes, evs, pos);
        match r {
            Err(h) => (Err(h), sc, p),
            Ok(()) => exec_block(ss.drop_first(), sc, evs, p),
        }
    }
}

/// A tree-walking evaluator over one environment, with the events for the
/// actions it has handed out so far.
pub struct GeneralVisitor {
    /// The bindings that statements read and write.
    pub env: RuntimeEnv,
    /// The events for the actions so far, in order.
    pub events: Vec<Event>,
    /// How many of the events evaluation has used.
    pub pos: usize,
}

impl GeneralVisitor {
    /// The position is within the events.
    pub open spec fn wf(&self) -> bool {
        self.pos <= self.events@.len()
    }

    /// Return a new general visitor, given a runtime environment and the
    /// events for the actions so far.
    pub fn new(env: RuntimeEnv, events: Vec<Event>) -> (r: Self)
        ensures
            r.env == env,
            r.events == events,
            r.pos == 0,
            r.wf(),
    {
        GeneralVisitor { env, events, pos: 0 }
    }

    /// Takes the event for action `a`, or halts with `a` when there is none.
    fn answer(&mut self, a: Action) -> (r: Result<Event, Halt>)
        requires
            old(self).wf(),
        ensures
            final(self).wf(),
            final(self).env == old(self).env,
            final(self).events == old(self).events,
            (r, final(self).pos as nat) == answer(a, old(self).events@, old(self).pos as nat),
    {
        if self.pos < self.events.len() {
            let e = self.events[self.pos].duplicate();
            self.pos = self.pos + 1;
            Ok(e)
        } else {
            Err(Halt::Waiting(a))
        }
    }

    /// Follows references from `v` to the value they lead to.
    pub fn resolve(&self, v: RuntimeVal) -> (r: Result<RuntimeVal, EvalError>)
        ensures
            r == resolve_in(v, self.env.scopes()),
    {
        let ghost scopes = self.env.scopes();
        let origin = match &v {
            RuntimeVal::Ident(n) => n.clone(),
            _ => {
                return Ok(v);
            },
        };
        let start = self.env.count_bindings();
        let mut fuel = start;
        let mut cur = v.duplicate();
        loop
            invariant
                scopes == self.env.scopes(),
                v == RuntimeVal::Ident(origin),
                resolve(cur, scopes, fuel as nat) == resolve(v, scopes, start as nat),
                start as nat == binding_count(scopes),
            decreases fuel,
        {
            match cur {
                RuntimeVal::Ident(name) => match self.env.get_var(name.as_str()) {
                    None => {
                        return Err(EvalError::UndefinedVariable(name));
                    },
                    Some(w) => {
                        if let RuntimeVal::Ident(_) = w {
                            if fuel == 0 {
                                return Err(EvalError::Unresolvable(origin));
                            }
                            fuel = fuel - 1;
                            cur = w;
                        } else {
                            return Ok(w);
                        }
                    },
                },
                _ => {
                    return Ok(cur);
                },
            }
        }
    }

    /// Applies `op` to two evaluated operands, which must be numbers.
    fn arith(&mut self, op: Op, l: RuntimeVal, r: RuntimeVal) -> (res: Result<RuntimeVal, Halt>)
        requires
            old(self).wf(),
        ensures
            final(self).wf(),
            final(self).env == old(self).env,
            final(self).events == old(self).events,
            (res, final(self).pos as nat) == apply_arith(
                op,
                l,
                r,
                old(self).events@,
                old(self).pos as nat,
            ),
    {
        match (l, r) {
            (RuntimeVal::Num(a), RuntimeVal::Num(b)) => match self.answer(Action::Arith(op, a, b)) {
                Ok(Event::Number(c)) => Ok(RuntimeVal::Num(c)),
                Ok(_) => Err(Halt::Failed(EvalError::UnexpectedEvent)),
                Err(h) => Err(h),
            },
            _ => Err(Halt::Failed(EvalError::TypeMismatch)),
        }
    }

    /// Applies `op` to two evaluated operands, resolving them first.
    fn compare(&mut self, op: CompareOp, l: RuntimeVal, r: RuntimeVal) -> (res: Result<
        RuntimeVal,
        Halt,
    >)
        requires
            old(self).wf(),
        ensures
            final(self).wf(),
            final(self).env == old(self).env,
            final(self).events == old(self).events,
            (res, final(self).pos as nat) == apply_compare(
                op,
                l,
                r,
                old(self).env.scopes(),
                old(self).events@,
                old(self).pos as nat,
            ),
    {
        let lv = match self.resolve(l) {
            Ok(v) => v,
            Err(e) => {
                return Err(Halt::Failed(e));
            },
        };
        let rv = match self.resolve(r) {
            Ok(v) => v,
            Err(e) => {
                return Err(Halt::Failed(e));
            },
        };
        match (lv, rv) {
            (RuntimeVal::Bool(a), RuntimeVal::Bool(b)) => equality_of(op, a == b),
            (RuntimeVal::Str(a), RuntimeVal::Str(b)) => equality_of(
                op,
                same_text(a.as_str(), b.as_str()),
            ),
            (RuntimeVal::Num(a), RuntimeVal::Num(b)) => match self.answer(
                Action::CompareNumbers(op, a, b),
            ) {
                Ok(Event::Truth(t)) => Ok(RuntimeVal::Bool(t)),
                Ok(_) => Err(Halt::Failed(EvalError::UnexpectedEvent)),
                Err(h) => Err(h),
            },
            _ => Err(Halt::Failed(EvalError::TypeMismatch)),
        }
    }

    /// Evaluates an expression.
    pub fn visit_expr(&mut self, e: &Expr) -> (r: Result<RuntimeVal, Halt>)
        requires
            old(self).wf(),
        ensures
            final(self).wf(),
            final(self).env == old(self).env,
            final(self).events == old(self).events,
            (r, final(self).pos as nat) == eval_expr(
                *e,
                old(self).env.scopes(),
                old(self).events@,
                old(self).pos as nat,
            ),
        decreases e,
    {
        match e {
            Expr::Read => match self.answer(Action::ReadLine) {
                Ok(Event::Line(s)) => Ok(RuntimeVal::Str(s)),
                Ok(Event::IoError(m)) => Err(Halt::Failed(EvalError::Io(m))),
                Ok(_) => Err(Halt::Failed(EvalError::UnexpectedEvent)),
                Err(h) => Err(h),
            },
            Expr::Comparison { lhs, op, rhs } => {
                let lv = match self.visit_expr(lhs) {
                    Ok(v) => v,
                    Err(h) => {
                        return Err(h);
                    },
                };
                let rv = match self.visit_expr(rhs) {
                    Ok(v) => v,
                    Err(h) => {
                        return Err(h);
                    },
                };
                self.compare(*op, lv, rv)
            },
            Expr::Binary(b) => {
                let lv = match self.visit_expr(&b.lhs) {
                    Ok(v) => v,
                    Err(h) => {
                        return Err(h);
                    },
                };
                let rv = match self.visit_expr(&b.rhs) {
                    Ok(v) => v,
                    Err(h) => {
                        return Err(h);
                    },
                };
                self.arith(b.op, lv, rv)
            },
            Expr::Bool(b) => Ok(RuntimeVal::Bool(*b)),
            Expr::Num(n) => Ok(RuntimeVal::Num(*n)),
            Expr::Str(s) => Ok(RuntimeVal::Str(s.clone())),
            Expr::Ident(name) => Ok(RuntimeVal::Ident(name.clone())),
        }
    }

    /// Runs a statement.
    pub fn visit_stmt(&mut self, s: &Stmt) -> (r: Result<(), Halt>)
        requires
            old(self).wf(),
        ensures
            final(self).wf(),
            final(self).events == old(self).events,
            (r, final(self).env.scopes(), final(self).pos as nat) == exec_stmt(
                *s,
                old(self).env.scopes(),
                old(self).events@,
                old(self).pos as nat,
            ),
        decreases s,
    {
        match s {
            Stmt::If { comparison, code } => {
                let c = match self.visit_expr(comparison) {
                    Ok(v) => v,
                    Err(h) => {
                        return Err(h);
                    },
                };
                match self.resolve(c) {
                    Err(e) => Err(Halt::Failed(e)),
                    Ok(RuntimeVal::Bool(true)) => self.visit_block(code),
                    Ok(RuntimeVal::Bool(false)) => Ok(()),
                    Ok(_) => Err(Halt::Failed(EvalError::TypeMismatch)),
                }
            },
            Stmt::Block(code) => self.visit_block(code),
            Stmt::Bash(cmd) => match self.answer(Action::Shell(cmd.clone())) {
                Ok(Event::Launched) => Ok(()),
                Ok(Event::IoError(m)) => Err(Halt::Failed(EvalError::Io(m))),
                Ok(_) => Err(Halt::Failed(EvalError::UnexpectedEvent)),
                Err(h) => Err(h),
            },
            Stmt::Print(ps) => {
                let c = match self.visit_expr(&ps.value) {
                    Ok(v) => v,
                    Err(h) => {
                        return Err(h);
                    },
                };
                let w = match self.resolve(c) {
                    Ok(w) => w,
                    Err(e) => {
                        return Err(Halt::Failed(e));
                    },
                };
                match self.answer(Action::Print(w)) {
                    Ok(Event::Printed) => Ok(()),
                    Ok(Event::IoError(m)) => Err(Halt::Failed(EvalError::Io(m))),
                    Ok(_) => Err(Halt::Failed(EvalError::UnexpectedEvent)),
                    Err(h) => Err(h),
                }
            },
            Stmt::Assign(a) => {
                let v = match self.visit_expr(&a.value) {
                    Ok(v) => v,
                    Err(h) => {
                        return Err(h);
                    },
                };
                self.env.set_var(a.name.clone(), v);
                Ok(())
            },
            Stmt::Expr(e) => match self.visit_expr(e) {
                Ok(_) => Ok(()),
                Err(h) => Err(h),
            },
        }
    }

    /// Runs statements in order, stopping at the first that does not finish.
    pub fn visit_block(&mut self, stmts: &Vec<Stmt>) -> (r: Result<(), Halt>)
        requires
            old(self).wf(),
        ensures
            final(self).wf(),
            final(self).events == old(self).events,
            (r, final(self).env.scopes(), final(self).pos as nat) == exec_block(
                stmts@,
                old(self).env.scopes(),
                old(self).events@,
                old(self).pos as nat,
            ),
        decreases stmts,
    {
        let ghost whole = exec_block(
            stmts@,
            self.env.scopes(),
            self.events@,
            self.pos as nat,
        );
        let n = stmts.len();
        assert(stmts@.subrange(0, n as int) =~= stmts@);
        let mut i: usize = 0;
        while i < n
            invariant
                self.wf(),
                n == stmts@.len(),
                i <= n,
                self.events == old(self).events,
                whole == exec_block(
                    stmts@,
                    old(self).env.scopes(),
                    old(self).events@,
                    old(self).pos as nat,
                ),
                whole == exec_block(
                    stmts@.subrange(i as int, n as int),
                    self.env.scopes(),
                    self.events@,
                    self.pos as nat,
                ),
            decreases n - i,
        {
            let ghost rest = stmts@.subrange(i as int, n as int);
            let ghost before = (self.env.scopes(), self.pos as nat);
            proof {
                assert(rest[0] == stmts@[i as int]);
                assert(rest.drop_first() =~= stmts@.subrange(i as int + 1, n as int));
            }
            let r = self.visit_stmt(&stmts[i]);
            assert(exec_stmt(rest[0], before.0, self.events@, before.1) == (
                r,
                self.env.scopes(),
                self.pos as nat,
            ));
            if let Err(h) = r {
                assert(rest.len() > 0);
                assert(exec_block(rest, before.0, self.events@, before.1) == (
                    Err::<(), Halt>(h),
                    self.env.scopes(),
                    self.pos as nat,
                ));
                return Err(h);
            }
            i = i + 1;
        }
        assert(stmts@.subrange(n as int, n as int) =~= Seq::<Stmt>::empty());
        Ok(())
    }

    /// Runs a program; it evaluates to null.
    pub fn visit_program(&mut self, stmts: &Vec<Stmt>) -> (r: Result<RuntimeVal, Halt>)
        requires
            old(self).wf(),
        ensures
            final(self).wf(),
            final(self).events == old(self).events,
            ({
                let (o, sc, p) = exec_block(
                    stmts@,
                    old(self).env.scopes(),
                    old(self).events@,
                    old(self).pos as nat,
                );
                &&& final(self).env.scopes() == sc
                &&& final(self).pos == p
                &&& r == match o {
                    Ok(()) => Ok(RuntimeVal::Null),
                    Err(h) => Err::<RuntimeVal, Halt>(h),
                }
            }),
    {
        match self.visit_block(stmts) {
            Ok(()) => Ok(RuntimeVal::Null),
            Err(h) => Err(h),
        }
    }
}

/// Equality operators on two values of a kind that is only compared for
/// equality, given whether they are equal.
fn equality_of(op: CompareOp, same: bool) -> (r: Result<RuntimeVal, Halt>)
    ensures
        r == match equality(op, same) {
            Ok(v) => Ok(v),
            Err(e) => Err(Halt::Failed(e)),
        },
{
    match op {
        CompareOp::Equal => Ok(RuntimeVal::Bool(same)),
        CompareOp::NotEqual => Ok(RuntimeVal::Bool(!same)),
        _ => Err(Halt::Failed(EvalError::TypeMismatch)),
    }
}

} // verus!
