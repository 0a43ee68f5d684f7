//! The syntax tree of a program, and the comment filter that runs before parsing.
use vstd::prelude::*;

verus! {

/// A statement.
#[derive(Debug, PartialEq)]
pub enum Stmt {
    /// `if <comparison> { <code> }`; there is no `else`.
    If { comparison: Box<Expr>, code: Vec<Stmt> },
    /// `{ <code> }`: a nested list of statements.
    Block(Vec<Stmt>),
    /// A command line handed to the host shell.
    Bash(String),
    /// `print <value>;`
    Print(PrintStmt),
    /// `let <name> = <value>;`
    Assign(AssignStmt),
    /// An expression evaluated for its effect.
    Expr(Box<Expr>),
}

/// A print statement.
///
/// Example: `print "Hello, world!";`
#[derive(Debug, PartialEq)]
pub struct PrintStmt {
    pub value: Box<Expr>,
}

/// An assignment statement.
///
/// Example: `let x = 23;`
#[derive(Debug, PartialEq)]
pub struct AssignStmt {
    pub name: String,
    pub value: Box<Expr>,
}

/// An arithmetic operator (eg. '+', '-').
#[derive(Clone, Copy, Debug, PartialEq, Eq, Structural)]
pub enum Op {
    Plus,
    Minus,
    Mult,
    Div,
}

/// A comparison operator (eg. '>', '<').
#[derive(Clone, Copy, Debug, PartialEq, Eq, Structural)]
pub enum CompareOp {
    Greater,
    Less,
    Equal,
    NotEqual,
    GreaterEqual,
    LessEqual,
}

/// An expression.
///
/// A number is held as the bit pattern of an IEEE-754 double
/// (`f64::to_bits`); the library never computes with it itself.
#[derive(Debug, PartialEq)]
pub enum Expr {
    /// Reads one line of standard input.
    Read,
    /// A comparison expression.
    Comparison { lhs: Box<Expr>, op: CompareOp, rhs: Box<Expr> },
    /// An arithmetic expression.
    Binary(BinaryExpr),
    Bool(bool),
    Num(u64),
    Str(String),
    /// An identifier.
    Ident(String),
}

/// An arithmetic expression: `<lhs> <op> <rhs>`.
#[derive(Debug, PartialEq)]
pub struct BinaryExpr {
    pub lhs: Box<Expr>,
    pub op: Op,
    pub rhs: Box<Expr>,
}


/// An expression as text determines it: the tree with its strings and names
/// as character sequences.
pub enum ExprV {
    Read,
    Comparison(Box<ExprV>, CompareOp, Box<ExprV>),
    Binary(Box<ExprV>, Op, Box<ExprV>),
    Bool(bool),
    Num(u64),
    Str(Seq<char>),
    Ident(Seq<char>),
}

/// A statement as text determines it.
pub enum StmtV {
    If(Box<ExprV>, Seq<StmtV>),
    Block(Seq<StmtV>),
    Bash(Seq<char>),
    Print(Box<ExprV>),
    Assign(Seq<char>, Box<ExprV>),
    Expr(Box<ExprV>),
}

/// The view of an expression.
pub open spec fn expr_view(e: Expr) -> ExprV
    decreases e,
{
    match e {
        Expr::Read => ExprV::Read,
        Expr::Comparison { lhs, op, rhs } => ExprV::Comparison(
            Box::new(expr_view(*lhs)),
            op,
            Box::new(expr_view(*rhs)),
        ),
        Expr::Binary(b) => ExprV::Binary(
            Box::new(expr_view(*b.lhs)),
            b.op,
            Box::new(expr_view(*b.rhs)),
        ),
        Expr::Bool(b) => ExprV::Bool(b),
        Expr::Num(n) => ExprV::Num(n),
        Expr::Str(t) => ExprV::Str(t@),
        Expr::Ident(n) => ExprV::Ident(n@),
    }
}

/// The view of a statement.
pub open spec fn stmt_view(s: Stmt) -> StmtV
    decreases s,
{
    match s {
        Stmt::If { comparison, code } => StmtV::If(
            Box::new(expr_view(*comparison)),
            block_view(code@),
        ),
        Stmt::Block(code) => StmtV::Block(block_view(code@)),
        Stmt::Bash(cmd) => StmtV::Bash(cmd@),
        Stmt::Print(ps) => StmtV::Print(Box::new(expr_view(*ps.value))),
        Stmt::Assign(a) => StmtV::Assign(a.name@, Box::new(expr_view(*a.value))),
        Stmt::Expr(e) => StmtV::Expr(Box::new(expr_view(*e))),
    }
}

/// The views of a sequence of statements.
pub open spec fn block_view(ss: Seq<Stmt>) -> Seq<StmtV>
    decreases ss,
{
    if ss.len() == 0 {
        Seq::empty()
    } else {
        block_view(ss.drop_last()).push(stmt_view(ss.last()))
    }
}

/// The depth of an expression tree.
pub open spec fn expr_depth(e: Expr) -> nat
    decreases e,
{
    match e {
        Expr::Comparison { lhs, rhs, .. } => 1 + max_nat(expr_depth(*lhs), expr_depth(*rhs)),
        Expr::Binary(b) => 1 + max_nat(expr_depth(*b.lhs), expr_depth(*b.rhs)),
        _ => 1,
    }
}

/// The larger of two naturals.
pub open spec fn max_nat(a: nat, b: nat) -> nat {
    if a >= b {
        a
    } else {
        b
    }
}

/// The depth of a statement tree.
pub open spec fn stmt_depth(s: Stmt) -> nat
    decreases s,
{
    match s {
        Stmt::If { comparison, code } => 1 + max_nat(expr_depth(*comparison), block_depth(code@)),
        Stmt::Block(code) => 1 + block_depth(code@),
        Stmt::Bash(_) => 1,
        Stmt::Print(ps) => 1 + expr_depth(*ps.value),
        Stmt::Assign(a) => 1 + expr_depth(*a.value),
        Stmt::Expr(e) => 1 + expr_depth(*e),
    }
}

/// The depth of the deepest statement of a sequence; 0 when it is empty.
pub open spec fn block_depth(ss: Seq<Stmt>) -> nat
    decreases ss,
{
    if ss.len() == 0 {
        0
    } else {
        max_nat(block_depth(ss.drop_last()), stmt_depth(ss.last()))
    }
}

/// Where the line that starts at or after `i` ends: the index of the next
/// `'\n'`, or the length of `s`.
pub open spec fn line_end(s: Seq<char>, i: int) -> int
    decreases s.len() - i,
{
    if i >= s.len() || i < 0 {
        s.len() as int
    } else if s[i] == '\n' {
        i
    } else {
        line_end(s, i + 1)
    }
}

/// The line from `start` to `end`, without the `'\r'` of a `"\r\n"` ending.
pub open spec fn line_text(s: Seq<char>, start: int, end: int) -> Seq<char> {
    if end < s.len() && end > start && s[end - 1] == '\r' {
        s.subrange(start, end - 1)
    } else {
        s.subrange(start, end)
    }
}

/// The lines of `s` from index `start` on: split at each `'\n'`, with a
/// `"\r\n"` ending taken as one, and no empty line after a final `'\n'`.
pub open spec fn lines_from(s: Seq<char>, start: int) -> Seq<Seq<char>>
    decreases s.len() - start,
{
    if start >= s.len() || start < 0 {
        Seq::empty()
    } else {
        let end = line_end(s, start);
        if end < start {
            Seq::empty()
        } else if end >= s.len() {
            seq![line_text(s, start, end)]
        } else {
            seq![line_text(s, start, end)] + lines_from(s, end + 1)
        }
    }
}

/// A line is a comment when it starts with `//`.
pub open spec fn is_comment(line: Seq<char>) -> bool {
    line.len() >= 2 && line[0] == '/' && line[1] == '/'
}

/// The lines that are not comments, in order.
pub open spec fn code_lines(ls: Seq<Seq<char>>) -> Seq<Seq<char>>
    decreases ls.len(),
{
    if ls.len() == 0 {
        Seq::empty()
    } else {
        (if is_comment(ls[0]) {
            Seq::empty()
        } else {
            seq![ls[0]]
        }) + code_lines(ls.drop_first())
    }
}

/// The lines joined with `'\n'` between each two.
pub open spec fn join_lines(ls: Seq<Seq<char>>) -> Seq<char>
    decreases ls.len(),
{
    if ls.len() == 0 {
        Seq::empty()
    } else if ls.len() == 1 {
        ls[0]
    } else {
        join_lines(ls.drop_last()) + seq!['\n'] + ls.last()
    }
}

proof fn lemma_line_end(s: Seq<char>, i: int)
    requires
        0 <= i <= s.len(),
    ensures
        i <= line_end(s, i) <= s.len(),
        line_end(s, i) < s.len() ==> s[line_end(s, i)] == '\n',
        forall|k: int| i <= k < line_end(s, i) ==> s[k] != '\n',
    decreases s.len() - i,
{
    if i < s.len() && s[i] != '\n' {
        lemma_line_end(s, i + 1);
    }
}

/// Returns code with comments (lines starting with '//') processed out.
pub fn filter_comments(code: &str) -> (r: String)
    ensures
        r@ == join_lines(code_lines(lines_from(code@, 0))),
{
    let ghost s = code@;
    let n = code.unicode_len();
    let mut any = false;
    let mut out = String::new();
    let ghost mut kept: Seq<Seq<char>> = Seq::empty();
    let mut start: usize = 0;
    while start < n
        invariant
            n == s.len(),
            s == code@,
            start <= n,
            code_lines(lines_from(s, 0)) == kept + code_lines(lines_from(s, start as int)),
            out@ == join_lines(kept),
            any == (kept.len() > 0),
        decreases n - start,
    {
        let mut end = start;
        while end < n && code.get_char(end) != '\n'
            invariant
                n == s.len(),
                s == code@,
                start <= end <= n,
                line_end(s, start as int) == line_end(s, end as int),
            decreases n - end,
        {
            end = end + 1;
        }
        proof {
            lemma_line_end(s, start as int);
        }
        let text_end = if end < n && end > start && code.get_char(end - 1) == '\r' {
            end - 1
        } else {
            end
        };
        let line = code.substring_char(start, text_end);
        let ghost ls = lines_from(s, start as int);
        assert(line@ == line_text(s, start as int, end as int));
        assert(ls[0] == line@);
        assert(ls.drop_first() =~= lines_from(s, end as int + 1));
        let comment = text_end - start >= 2 && line.get_char(0) == '/' && line.get_char(1) == '/';
        if !comment {
            if any {
                out.append("\n");
            }
            out.append(line);
            any = true;
            proof {
                reveal_strlit("\n");
                let k2 = kept.push(line@);
                assert(k2.drop_last() =~= kept);
                assert(code_lines(ls) =~= seq![line@] + code_lines(ls.drop_first()));
                assert(kept + code_lines(ls) =~= k2 + code_lines(ls.drop_first()));
                kept = k2;
            }
        } else {
            proof {
                assert(code_lines(ls) =~= code_lines(ls.drop_first()));
            }
        }
        if end == n {
            proof {
                assert(lines_from(s, end as int + 1) =~= Seq::<Seq<char>>::empty());
            }
            start = n;
        } else {
            start = end + 1;
        }
    }
    proof {
        assert(lines_from(s, start as int) =~= Seq::<Seq<char>>::empty());
        assert(kept + Seq::<Seq<char>>::empty() =~= kept);
    }
    out
}

} // verus!
