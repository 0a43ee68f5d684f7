//! Properties of program runs, stated over the evaluation semantics.
use vstd::prelude::*;
use crate::interpreter::{fresh_scopes, next_step, text_of, Interpreter, Step};
use crate::grammar::{derives, law_derivation_unique, law_print_23_parses};
use crate::number::double_bits;
use crate::parser::{
    block_view, code_lines, expr_view, join_lines, line_end, line_text, lines_from, stmt_view,
    AssignStmt, CompareOp, Expr, ExprV, PrintStmt, Stmt, StmtV,
};
use crate::runtime::{lookup, RuntimeVal, Scope};
use crate::visitor::{
    answer, eval_expr, exec_block, exec_stmt, resolve, Action, EvalError, Event, Halt,
};

verus! {

/// `print <e>;`
pub open spec fn print_of(e: Expr) -> Stmt {
    Stmt::Print(PrintStmt { value: Box::new(e) })
}

/// The value of a literal expression.
pub open spec fn literal_value(e: Expr) -> RuntimeVal {
    match e {
        Expr::Bool(b) => RuntimeVal::Bool(b),
        Expr::Num(n) => RuntimeVal::Num(n),
        Expr::Str(s) => RuntimeVal::Str(s),
        _ => RuntimeVal::Null,
    }
}

/// The kind of a literal expression: boolean, number or string.
pub open spec fn literal_kind(e: Expr) -> Option<int> {
    match e {
        Expr::Bool(_) => Some(0),
        Expr::Num(_) => Some(1),
        Expr::Str(_) => Some(2),
        _ => None,
    }
}

/// Printing a boolean, number or string literal prints its value once and
/// then ends; the text shown for a string is its contents, for a boolean
/// `true` or `false`.
pub proof fn law_print_literal(e: Expr)
    requires
        literal_kind(e) is Some,
    ensures
        next_step(seq![print_of(e)], seq![]) == Step::Perform(Action::Print(literal_value(e))),
        next_step(seq![print_of(e)], seq![Event::Printed]) == Step::Finished(Ok(())),
        e matches Expr::Str(s) ==> text_of(literal_value(e)) == Some(s@),
        e matches Expr::Bool(b) ==> text_of(literal_value(e)) == Some(
            if b {
                "true"@
            } else {
                "false"@
            },
        ),
{
    reveal_with_fuel(exec_block, 2);
}

/// `let x = N; print x;` prints the number `N` once and then ends.
pub proof fn law_assign_then_print(x: String, n: u64)
    ensures
        ({
            let p = seq![
                Stmt::Assign(AssignStmt { name: x, value: Box::new(Expr::Num(n)) }),
                print_of(Expr::Ident(x)),
            ];
            &&& next_step(p, seq![]) == Step::Perform(Action::Print(RuntimeVal::Num(n)))
            &&& next_step(p, seq![Event::Printed]) == Step::Finished(Ok(()))
        }),
{
    reveal_with_fuel(exec_block, 3);
    let sc: Seq<Scope> = seq![seq![(x, RuntimeVal::Num(n))]];
    assert(crate::runtime::bind_innermost(fresh_scopes(), x, RuntimeVal::Num(n)) =~= sc);
    assert(crate::runtime::lookup(sc, x@) == Some(RuntimeVal::Num(n)));
}

/// `if L < R { print V; }` asks for the comparison of `L` and `R`, and prints
/// `V` exactly when the answer is true.
pub proof fn law_if_less(l: u64, r: u64, v: u64, code: Vec<Stmt>, t: bool)
    requires
        code@ == seq![print_of(Expr::Num(v))],
    ensures
        ({
            let p = seq![
                Stmt::If {
                    comparison: Box::new(
                        Expr::Comparison {
                            lhs: Box::new(Expr::Num(l)),
                            op: CompareOp::Less,
                            rhs: Box::new(Expr::Num(r)),
                        },
                    ),
                    code: code,
                },
            ];
            &&& next_step(p, seq![]) == Step::Perform(Action::CompareNumbers(CompareOp::Less, l, r))
            &&& next_step(p, seq![Event::Truth(t)]) == if t {
                Step::Perform(Action::Print(RuntimeVal::Num(v)))
            } else {
                Step::Finished(Ok(()))
            }
            &&& next_step(p, seq![Event::Truth(t), Event::Printed]) == Step::Finished(Ok(()))
        }),
{
    reveal_with_fuel(exec_block, 3);
    reveal_with_fuel(crate::visitor::eval_expr, 2);
    let c = Expr::Comparison {
        lhs: Box::new(Expr::Num(l)),
        op: CompareOp::Less,
        rhs: Box::new(Expr::Num(r)),
    };
    let s = Stmt::If { comparison: Box::new(c), code: code };
    let e1 = seq![Event::Truth(t)];
    let e2 = seq![Event::Truth(t), Event::Printed];
    assert(crate::visitor::eval_expr(c, fresh_scopes(), e1, 0) == (
        Ok::<RuntimeVal, Halt>(RuntimeVal::Bool(t)),
        1nat,
    ));
    assert(crate::visitor::eval_expr(c, fresh_scopes(), e2, 0) == (
        Ok::<RuntimeVal, Halt>(RuntimeVal::Bool(t)),
        1nat,
    ));
    assert(code@[0] == print_of(Expr::Num(v)));
    assert(code@.drop_first() =~= Seq::<Stmt>::empty());
    let p = seq![s];
    assert(p[0] == s);
    assert(p.drop_first() =~= Seq::<Stmt>::empty());
    assert(exec_block(code@, fresh_scopes(), e1, 1).0 == Err::<(), Halt>(
        Halt::Waiting(Action::Print(RuntimeVal::Num(v))),
    ));
    assert(exec_block(code@, fresh_scopes(), e2, 1).0 == Ok::<(), Halt>(()));
    assert(next_step(p, seq![]) == Step::Perform(Action::CompareNumbers(CompareOp::Less, l, r)));
    assert(next_step(p, e1) == if t {
        Step::Perform(Action::Print(RuntimeVal::Num(v)))
    } else {
        Step::Finished(Ok(()))
    });
    assert(next_step(p, e2) == Step::Finished(Ok(())));
}

/// `print read;` reads a line and prints it as it was read, line terminator
/// included.
pub proof fn law_print_read(line: String)
    ensures
        next_step(seq![print_of(Expr::Read)], seq![]) == Step::Perform(Action::ReadLine),
        next_step(seq![print_of(Expr::Read)], seq![Event::Line(line)]) == Step::Perform(
            Action::Print(RuntimeVal::Str(line)),
        ),
        next_step(seq![print_of(Expr::Read)], seq![Event::Line(line), Event::Printed])
            == Step::Finished(Ok(())),
        text_of(RuntimeVal::Str(line)) == Some(line@),
{
    reveal_with_fuel(exec_block, 2);
}

/// Comparing literals of two different kinds is a type mismatch: the program
/// ends with that error before any action, whatever follows and whatever the
/// events.
pub proof fn law_mismatched_comparison(
    l: Expr,
    op: CompareOp,
    r: Expr,
    rest: Seq<Stmt>,
    evs: Seq<Event>,
)
    requires
        literal_kind(l) is Some,
        literal_kind(r) is Some,
        literal_kind(l) != literal_kind(r),
    ensures
        next_step(
            seq![print_of(Expr::Comparison { lhs: Box::new(l), op: op, rhs: Box::new(r) })] + rest,
            evs,
        ) == Step::Finished(Err(EvalError::TypeMismatch)),
{
    reveal_with_fuel(crate::visitor::eval_expr, 2);
    let c = Expr::Comparison { lhs: Box::new(l), op: op, rhs: Box::new(r) };
    let p = seq![print_of(c)] + rest;
    assert(p[0] == print_of(c));
    assert(crate::visitor::eval_expr(c, fresh_scopes(), evs, 0) == (
        Err::<RuntimeVal, Halt>(Halt::Failed(EvalError::TypeMismatch)),
        0nat,
    ));
    assert(exec_stmt(p[0], fresh_scopes(), evs, 0).0 == Err::<(), Halt>(
        Halt::Failed(EvalError::TypeMismatch),
    ));
}

/// Printing an unbound identifier fails with an undefined-variable error, and
/// no statement after it runs: the run ends before any action.
pub proof fn law_undefined_aborts(x: String, rest: Seq<Stmt>, evs: Seq<Event>)
    ensures
        next_step(seq![print_of(Expr::Ident(x))] + rest, evs) == Step::Finished(
            Err(EvalError::UndefinedVariable(x)),
        ),
{
    reveal_with_fuel(crate::runtime::lookup, 2);
    let p = seq![print_of(Expr::Ident(x))] + rest;
    assert(p[0] == print_of(Expr::Ident(x)));
    assert(fresh_scopes().drop_first() =~= Seq::<Scope>::empty());
    assert(crate::runtime::find_from(fresh_scopes()[0], x@, 0) is None);
    assert(crate::runtime::lookup(fresh_scopes(), x@) is None);
    assert(exec_stmt(p[0], fresh_scopes(), evs, 0).0 == Err::<(), Halt>(
        Halt::Failed(EvalError::UndefinedVariable(x)),
    ));
}

/// Statements run in order and the first one that stops ends the block:
/// what follows a block that stopped never runs.
pub proof fn law_stop_skips_rest(
    ss: Seq<Stmt>,
    rest: Seq<Stmt>,
    scopes: Seq<Scope>,
    evs: Seq<Event>,
    pos: nat,
)
    requires
        exec_block(ss, scopes, evs, pos).0 is Err,
    ensures
        exec_block(ss + rest, scopes, evs, pos) == exec_block(ss, scopes, evs, pos),
    decreases ss.len(),
{
    assert(ss.len() > 0);
    assert((ss + rest)[0] == ss[0]);
    assert((ss + rest).drop_first() =~= ss.drop_first() + rest);
    let (r, sc, p) = exec_stmt(ss[0], scopes, evs, pos);
    if r is Ok {
        law_stop_skips_rest(ss.drop_first(), rest, sc, evs, p);
    }
}

/// Resolution never yields a reference: what a print statement hands out,
/// and what a condition or a comparison tests, is a value.
pub proof fn law_resolved_is_value(v: RuntimeVal, scopes: Seq<Scope>, fuel: nat)
    ensures
        resolve(v, scopes, fuel) matches Ok(w) ==> !(w is Ident),
    decreases fuel,
{
    if let RuntimeVal::Ident(name) = v {
        if let Some(w) = lookup(scopes, name@) {
            if w is Ident && fuel > 0 {
                law_resolved_is_value(w, scopes, (fuel - 1) as nat);
            }
        }
    }
}

/// Whether an evaluation stopped for want of an event.
pub open spec fn waits<T>(r: Result<T, Halt>) -> bool {
    r matches Err(Halt::Waiting(_))
}

proof fn lemma_answer_more(a: Action, evs: Seq<Event>, more: Seq<Event>, pos: nat)
    requires
        pos <= evs.len(),
    ensures
        answer(a, evs, pos).1 <= evs.len(),
        waits(answer(a, evs, pos).0) ==> answer(a, evs, pos).1 == evs.len(),
        !waits(answer(a, evs, pos).0) ==> answer(a, evs + more, pos) == answer(a, evs, pos),
{
    if pos < evs.len() {
        assert((evs + more)[pos as int] == evs[pos as int]);
    }
}

proof fn lemma_expr_more(e: Expr, scopes: Seq<Scope>, evs: Seq<Event>, more: Seq<Event>, pos: nat)
    requires
        pos <= evs.len(),
    ensures
        eval_expr(e, scopes, evs, pos).1 <= evs.len(),
        waits(eval_expr(e, scopes, evs, pos).0) ==> eval_expr(e, scopes, evs, pos).1 == evs.len(),
        !waits(eval_expr(e, scopes, evs, pos).0) ==> eval_expr(e, scopes, evs + more, pos)
            == eval_expr(e, scopes, evs, pos),
    decreases e,
{
    match e {
        Expr::Read => {
            lemma_answer_more(Action::ReadLine, evs, more, pos);
        },
        Expr::Comparison { lhs, op, rhs } => {
            lemma_expr_more(*lhs, scopes, evs, more, pos);
            let (l, pl) = eval_expr(*lhs, scopes, evs, pos);
            if l is Ok {
                lemma_expr_more(*rhs, scopes, evs, more, pl);
                let (r, pr) = eval_expr(*rhs, scopes, evs, pl);
                if r is Ok {
                    if let (Ok(lv), Ok(rv)) = (
                        crate::visitor::resolve_in(l->Ok_0, scopes),
                        crate::visitor::resolve_in(r->Ok_0, scopes),
                    ) {
                        if let (RuntimeVal::Num(a), RuntimeVal::Num(b)) = (lv, rv) {
                            lemma_answer_more(Action::CompareNumbers(op, a, b), evs, more, pr);
                        }
                    }
                }
            }
        },
        Expr::Binary(b) => {
            lemma_expr_more(*b.lhs, scopes, evs, more, pos);
            let (l, pl) = eval_expr(*b.lhs, scopes, evs, pos);
            if l is Ok {
                lemma_expr_more(*b.rhs, scopes, evs, more, pl);
                let (r, pr) = eval_expr(*b.rhs, scopes, evs, pl);
                if r is Ok {
                    if let (RuntimeVal::Num(x), RuntimeVal::Num(y)) = (l->Ok_0, r->Ok_0) {
                        lemma_answer_more(Action::Arith(b.op, x, y), evs, more, pr);
                    }
                }
            }
        },
        _ => {},
    }
}

proof fn lemma_stmt_more(s: Stmt, scopes: Seq<Scope>, evs: Seq<Event>, more: Seq<Event>, pos: nat)
    requires
        pos <= evs.len(),
    ensures
        exec_stmt(s, scopes, evs, pos).2 <= evs.len(),
        waits(exec_stmt(s, scopes, evs, pos).0) ==> exec_stmt(s, scopes, evs, pos).2 == evs.len(),
        !waits(exec_stmt(s, scopes, evs, pos).0) ==> exec_stmt(s, scopes, evs + more, pos)
            == exec_stmt(s, scopes, evs, pos),
    decreases s,
{
    match s {
        Stmt::If { comparison, code } => {
            lemma_expr_more(*comparison, scopes, evs, more, pos);
            let (c, p) = eval_expr(*comparison, scopes, evs, pos);
            if c is Ok {
                lemma_block_more(code@, scopes, evs, more, p);
            }
        },
        Stmt::Block(code) => {
            lemma_block_more(code@, scopes, evs, more, pos);
        },
        Stmt::Bash(cmd) => {
            lemma_answer_more(Action::Shell(cmd), evs, more, pos);
        },
        Stmt::Print(ps) => {
            lemma_expr_more(*ps.value, scopes, evs, more, pos);
            let (c, p) = eval_expr(*ps.value, scopes, evs, pos);
            if c is Ok {
                if let Ok(w) = crate::visitor::resolve_in(c->Ok_0, scopes) {
                    lemma_answer_more(Action::Print(w), evs, more, p);
                }
            }
        },
        Stmt::Assign(a) => {
            lemma_expr_more(*a.value, scopes, evs, more, pos);
        },
        Stmt::Expr(e) => {
            lemma_expr_more(*e, scopes, evs, more, pos);
        },
    }
}

proof fn lemma_block_more(
    ss: Seq<Stmt>,
    scopes: Seq<Scope>,
    evs: Seq<Event>,
    more: Seq<Event>,
    pos: nat,
)
    requires
        pos <= evs.len(),
    ensures
        exec_block(ss, scopes, evs, pos).2 <= evs.len(),
        waits(exec_block(ss, scopes, evs, pos).0) ==> exec_block(ss, scopes, evs, pos).2
            == evs.len(),
        !waits(exec_block(ss, scopes, evs, pos).0) ==> exec_block(ss, scopes, evs + more, pos)
            == exec_block(ss, scopes, evs, pos),
    decreases ss,
{
    if ss.len() > 0 {
        lemma_stmt_more(ss[0], scopes, evs, more, pos);
        let (r, sc, p) = exec_stmt(ss[0], scopes, evs, pos);
        if r is Ok {
            lemma_block_more(ss.drop_first(), sc, evs, more, p);
        }
    }
}

/// A run that has ended stays ended, with the same outcome, whatever events
/// follow: an event only bears on what comes after it.
pub proof fn law_ended_run_is_final(p: Seq<Stmt>, evs: Seq<Event>, more: Seq<Event>)
    requires
        next_step(p, evs) is Finished,
    ensures
        next_step(p, evs + more) == next_step(p, evs),
{
    lemma_block_more(p, fresh_scopes(), evs, more, 0);
}

/// A run that asks for an action has used every event given so far: the
/// next event is the one that answers that action.
pub proof fn law_waiting_run_used_all_events(p: Seq<Stmt>, evs: Seq<Event>)
    requires
        next_step(p, evs) is Perform,
    ensures
        exec_block(p, fresh_scopes(), evs, 0).2 == evs.len(),
{
    lemma_block_more(p, fresh_scopes(), evs, Seq::empty(), 0);
}

/// Two runs of the same program with the same events take the same step:
/// each run starts from a fresh environment, so nothing carries over from one
/// run to the next.
pub proof fn law_fresh_runs_agree(a: Interpreter, b: Interpreter)
    requires
        a.ast@ == b.ast@,
        a.events@ == b.events@,
    ensures
        next_step(a.ast@, a.events@) == next_step(b.ast@, b.events@),
{
}


/// The views of a sequence of statements are one for each statement.
proof fn lemma_block_view(ss: Seq<Stmt>)
    ensures
        block_view(ss).len() == ss.len(),
        forall|i: int| 0 <= i < ss.len() ==> block_view(ss)[i] == stmt_view(#[trigger] ss[i]),
    decreases ss.len(),
{
    if ss.len() > 0 {
        lemma_block_view(ss.drop_last());
        assert forall|i: int| 0 <= i < ss.len() implies block_view(ss)[i] == stmt_view(
            #[trigger] ss[i],
        ) by {
            if i < ss.len() - 1 {
                assert(ss.drop_last()[i] == ss[i]);
            }
        }
    }
}

/// The text `print 23;`, comment filtering included, is left as it is.
proof fn lemma_print_23_kept()
    ensures
        join_lines(code_lines(lines_from("print 23;"@, 0))) == "print 23;"@,
{
    reveal_strlit("print 23;");
    reveal_with_fuel(line_end, 11);
    reveal_with_fuel(code_lines, 2);
    reveal_with_fuel(join_lines, 2);
    let s = "print 23;"@;
    assert(line_end(s, 0) == 9);
    assert(line_text(s, 0, 9) =~= s);
    assert(lines_from(s, 0) =~= seq![s]);
    assert(seq![s].drop_first() =~= Seq::<Seq<char>>::empty());
    assert(code_lines(seq![s]) =~= seq![s]);
}

/// `run_code("print 23;")` gives a program that prints the number 23 once
/// and then ends.
pub proof fn law_run_print_23(ast: Seq<Stmt>)
    requires
        derives(join_lines(code_lines(lines_from("print 23;"@, 0))), block_view(ast)),
    ensures
        next_step(ast, seq![]) == Step::Perform(
            Action::Print(RuntimeVal::Num(double_bits(23) as u64)),
        ),
        next_step(ast, seq![Event::Printed]) == Step::Finished(Ok(())),
{
    lemma_print_23_kept();
    law_print_23_parses();
    let b = double_bits(23) as u64;
    let v = seq![StmtV::Print(Box::new(ExprV::Num(b)))];
    law_derivation_unique("print 23;"@, block_view(ast), v);
    lemma_block_view(ast);
    assert(ast.len() == 1);
    assert(stmt_view(ast[0]) == StmtV::Print(Box::new(ExprV::Num(b))));
    match ast[0] {
        Stmt::Print(ps) => {
            assert(expr_view(*ps.value) == ExprV::Num(b));
            match *ps.value {
                Expr::Num(n) => {},
                Expr::Comparison { .. } => {},
                Expr::Binary(_) => {},
                _ => {},
            }
            assert(*ps.value == Expr::Num(b));
            assert(ast[0] == print_of(Expr::Num(b)));
        },
        _ => {},
    }
    assert(ast =~= seq![print_of(Expr::Num(b))]);
    law_print_literal(Expr::Num(b));
}

} // verus!
