//! The parser: source text to statements.
//!
//! ```text
//! program := stmt*
//! stmt    := "if" expr "{" stmt* "}"
//!          | "{" stmt* "}"
//!          | "'" '"' <command> '"' "'" ";"?
//!          | "print" expr ";"?
//!          | "let" ident "=" expr ";"?
//!          | ident "=" expr ";"?
//!          | expr "?" ";"?                    (prints the expression)
//!          | expr ";"?
//! expr    := sum (("==" | "!=" | "<=" | ">=" | "<" | ">") sum)?
//! sum     := product (("+" | "-") product)*
//! product := atom (("*" | "/") atom)*
//! atom    := integer | '"' <text> '"' | "true" | "false" | "read" | ident
//!          | "(" expr ")"
//! ```
//! An integer literal is at most 2^53; spaces, tabs and line breaks separate
//! tokens. The spec functions `g_atom` to `g_program` state this grammar
//! exactly, errors included, and `derives` says which program a text spells;
//! the parsing functions are proved to compute them. Trees nest at most `MAX_DEPTH` deep, so that running them stays
//! within a bounded depth of recursion.
use vstd::prelude::*;
use crate::number::{double_bits, double_of_int, MAX_LITERAL};
use crate::parser::{
    block_view, expr_view, stmt_view, ExprV, StmtV, block_depth, expr_depth, max_nat, stmt_depth, AssignStmt, BinaryExpr, CompareOp, Expr, Op,
    PrintStmt, Stmt,
};

verus! {

/// Why source text does not parse.
#[derive(Debug, PartialEq)]
pub enum ParseError {
    /// A character that the grammar does not allow here, by its index.
    Unexpected(usize),
    /// The text ended in the middle of a statement.
    UnexpectedEnd,
    /// A number literal, by its index, that is greater than 2^53.
    NumberTooLarge(usize),
    /// Nesting, by the index where it goes too deep, beyond `MAX_DEPTH`.
    TooDeep(usize),
}

/// How deep the statement and expression trees of a program may nest.
pub const MAX_DEPTH: usize = 256;

/// The characters of a string, in order.
pub fn chars_of(s: &str) -> (r: Vec<char>)
    ensures
        r@ == s@,
{
    let n = s.unicode_len();
    let mut r: Vec<char> = Vec::new();
    let mut i: usize = 0;
    while i < n
        invariant
            n == s@.len(),
            i <= n,
            r@ == s@.subrange(0, i as int),
        decreases n - i,
    {
        r.push(s.get_char(i));
        i = i + 1;
        assert(r@ =~= s@.subrange(0, i as int));
    }
    assert(r@ =~= s@);
    r
}

/// Characters that separate tokens.
pub open spec fn is_space(c: char) -> bool {
    c == ' ' || c == '\t' || c == '\n' || c == '\r'
}

/// Characters that start an identifier.
pub open spec fn is_ident_start(c: char) -> bool {
    ('a' <= c && c <= 'z') || ('A' <= c && c <= 'Z') || c == '_'
}

/// Characters that continue an identifier.
pub open spec fn is_ident_char(c: char) -> bool {
    is_ident_start(c) || ('0' <= c && c <= '9')
}

/// A name as the grammar spells it: identifier characters, the first of
/// them not a digit.
pub open spec fn is_name(s: Seq<char>) -> bool {
    s.len() > 0 && is_ident_start(s[0]) && forall|k: int|
        0 <= k < s.len() ==> is_ident_char(#[trigger] s[k])
}

/// Text without a double quote.
pub open spec fn no_quote(s: Seq<char>) -> bool {
    forall|k: int| 0 <= k < s.len() ==> s[k] != '"'
}

/// The bits of a double that a number literal can denote: an integer of at
/// most 2^53.
pub open spec fn is_literal_bits(bits: u64) -> bool {
    exists|v: nat| v <= MAX_LITERAL && bits as nat == #[trigger] double_bits(v)
}

/// An expression as the parser builds it: its identifiers are names other
/// than `read`, `true` and `false`, its strings hold no double quote, and
/// its numbers are literal integers.
pub open spec fn parsed_expr(e: Expr) -> bool
    decreases e,
{
    match e {
        Expr::Comparison { lhs, rhs, .. } => parsed_expr(*lhs) && parsed_expr(*rhs),
        Expr::Binary(b) => parsed_expr(*b.lhs) && parsed_expr(*b.rhs),
        Expr::Num(bits) => is_literal_bits(bits),
        Expr::Str(t) => no_quote(t@),
        Expr::Ident(n) => is_name(n@) && n@ != "read"@ && n@ != "true"@ && n@ != "false"@,
        Expr::Read => true,
        Expr::Bool(_) => true,
    }
}

/// A statement as the parser builds it: its expressions are as
/// `parsed_expr` says, an assigned name is a name, and a shell command holds
/// no double quote.
pub open spec fn parsed_stmt(s: Stmt) -> bool
    decreases s,
{
    match s {
        Stmt::If { comparison, code } => parsed_expr(*comparison) && parsed_block(code@),
        Stmt::Block(code) => parsed_block(code@),
        Stmt::Bash(cmd) => no_quote(cmd@),
        Stmt::Print(ps) => parsed_expr(*ps.value),
        Stmt::Assign(a) => is_name(a.name@) && parsed_expr(*a.value),
        Stmt::Expr(e) => parsed_expr(*e),
    }
}

/// Every statement of the sequence is as `parsed_stmt` says.
pub open spec fn parsed_block(ss: Seq<Stmt>) -> bool
    decreases ss,
{
    if ss.len() == 0 {
        true
    } else {
        parsed_block(ss.drop_last()) && parsed_stmt(ss.last())
    }
}

/// The value of a decimal digit.
fn digit_value(c: char) -> (r: Option<u64>)
    ensures
        r is Some <==> ('0' <= c && c <= '9'),
        r matches Some(d) ==> d <= 9 && digit_of(c) == Some(d as nat),
{
    match c {
        '0' => Some(0),
        '1' => Some(1),
        '2' => Some(2),
        '3' => Some(3),
        '4' => Some(4),
        '5' => Some(5),
        '6' => Some(6),
        '7' => Some(7),
        '8' => Some(8),
        '9' => Some(9),
        _ => None,
    }
}

/// The index of the first character at or after `pos` that is not a space.
fn skip_ws(cs: &Vec<char>, pos: usize) -> (r: usize)
    requires
        pos <= cs@.len(),
    ensures
        pos <= r <= cs@.len(),
        forall|k: int| pos <= k < r ==> is_space(cs@[k]),
        r < cs@.len() ==> !is_space(cs@[r as int]),
        r == ws_end(cs@, pos as int),
{
    let mut p = pos;
    while p < cs.len() && (cs[p] == ' ' || cs[p] == '\t' || cs[p] == '\n' || cs[p] == '\r')
        invariant
            pos <= p <= cs@.len(),
            forall|k: int| pos <= k < p ==> is_space(cs@[k]),
            ws_end(cs@, pos as int) == ws_end(cs@, p as int),
        decreases cs@.len() - p,
    {
        p = p + 1;
    }
    p
}

/// The end of the identifier characters that start at `pos`.
fn word_end(cs: &Vec<char>, pos: usize) -> (r: usize)
    requires
        pos <= cs@.len(),
    ensures
        pos <= r <= cs@.len(),
        forall|k: int| pos <= k < r ==> is_ident_char(cs@[k]),
        r < cs@.len() ==> !is_ident_char(cs@[r as int]),
        r == pos + word_count(cs@, pos as int),
{
    let mut p = pos;
    while p < cs.len() && (('a' <= cs[p] && cs[p] <= 'z') || ('A' <= cs[p] && cs[p] <= 'Z')
        || cs[p] == '_' || ('0' <= cs[p] && cs[p] <= '9'))
        invariant
            pos <= p <= cs@.len(),
            forall|k: int| pos <= k < p ==> is_ident_char(cs@[k]),
            pos + word_count(cs@, pos as int) == p + word_count(cs@, p as int),
        decreases cs@.len() - p,
    {
        p = p + 1;
    }
    p
}

/// Whether the characters from `start` to `end` spell `word`.
fn spells(cs: &Vec<char>, start: usize, end: usize, word: &str) -> (r: bool)
    requires
        start <= end <= cs@.len(),
    ensures
        r == (cs@.subrange(start as int, end as int) == word@),
{
    let n = word.unicode_len();
    if end - start != n {
        return false;
    }
    let mut i: usize = 0;
    while i < n
        invariant
            n == word@.len(),
            end - start == n,
            start <= end <= cs@.len(),
            i <= n,
            forall|k: int| 0 <= k < i ==> cs@[start + k] == word@[k],
        decreases n - i,
    {
        if cs[start + i] != word.get_char(i) {
            assert(cs@.subrange(start as int, end as int)[i as int] != word@[i as int]);
            return false;
        }
        i = i + 1;
    }
    assert(cs@.subrange(start as int, end as int) =~= word@);
    true
}

/// The source text from `start` to `end` as a string.
fn text(src: &str, start: usize, end: usize) -> (r: String)
    requires
        start <= end <= src@.len(),
    ensures
        r@ == src@.subrange(start as int, end as int),
{
    String::from_str(src.substring_char(start, end))
}

/// The position after an optional `;` that follows `pos`.
fn skip_semicolon(cs: &Vec<char>, pos: usize) -> (r: usize)
    requires
        pos <= cs@.len(),
    ensures
        pos <= r <= cs@.len(),
        r == semi_end(cs@, pos as int),
{
    let p = skip_ws(cs, pos);
    if p < cs.len() && cs[p] == ';' {
        p + 1
    } else {
        pos
    }
}

/// How many spaces follow from `p`.
pub open spec fn ws_count(cs: Seq<char>, p: int) -> nat
    decreases cs.len() - p,
{
    if 0 <= p < cs.len() && is_space(cs[p]) {
        1 + ws_count(cs, p + 1)
    } else {
        0
    }
}

/// The first index at or after `p` that is not a space.
pub open spec fn ws_end(cs: Seq<char>, p: int) -> int {
    p + ws_count(cs, p)
}

/// How many identifier characters follow from `p`.
pub open spec fn word_count(cs: Seq<char>, p: int) -> nat
    decreases cs.len() - p,
{
    if 0 <= p < cs.len() && is_ident_char(cs[p]) {
        1 + word_count(cs, p + 1)
    } else {
        0
    }
}

/// How many characters other than `"` follow from `p`.
pub open spec fn quote_count(cs: Seq<char>, p: int) -> nat
    decreases cs.len() - p,
{
    if 0 <= p < cs.len() && cs[p] != '"' {
        1 + quote_count(cs, p + 1)
    } else {
        0
    }
}

/// The value of a decimal digit.
pub open spec fn digit_of(c: char) -> Option<nat> {
    if '0' <= c && c <= '9' {
        Some((c as nat - '0' as nat) as nat)
    } else {
        None
    }
}

/// The value of the digits from `q` on, added to `v` times ten for each;
/// with the end of the digits. Fails as soon as the value exceeds 2^53.
pub open spec fn scan_digits(cs: Seq<char>, q: int, v: nat) -> Result<(nat, int), ()>
    decreases cs.len() - q,
{
    if 0 <= q < cs.len() && digit_of(cs[q]) is Some {
        let d = digit_of(cs[q])->Some_0;
        if v > (MAX_LITERAL - d) / 10 {
            Err(())
        } else {
            scan_digits(cs, q + 1, v * 10 + d)
        }
    } else {
        Ok((v, q))
    }
}

/// The position after an optional `;` that follows `pos`.
pub open spec fn semi_end(cs: Seq<char>, pos: int) -> int {
    let p = ws_end(cs, pos);
    if p < cs.len() && cs[p] == ';' {
        p + 1
    } else {
        pos
    }
}

/// The comparison operator at `p`, with its length.
pub open spec fn comparison_of(cs: Seq<char>, p: int) -> Option<(CompareOp, int)> {
    if p < 0 || p >= cs.len() {
        None
    } else {
        let c = cs[p];
        let next_is_eq = p + 1 < cs.len() && cs[p + 1] == '=';
        if c == '=' && next_is_eq {
            Some((CompareOp::Equal, 2))
        } else if c == '!' && next_is_eq {
            Some((CompareOp::NotEqual, 2))
        } else if c == '<' && next_is_eq {
            Some((CompareOp::LessEqual, 2))
        } else if c == '>' && next_is_eq {
            Some((CompareOp::GreaterEqual, 2))
        } else if c == '<' {
            Some((CompareOp::Less, 1))
        } else if c == '>' {
            Some((CompareOp::Greater, 1))
        } else {
            None
        }
    }
}

/// Whether a parse that started at `from` ended at `to`, within the text:
/// each rule consumes at least one character.
pub open spec fn moved(from: int, to: int, len: int) -> bool {
    from < to <= len
}

/// The larger of two depths.
pub open spec fn deeper(a: nat, b: nat) -> nat {
    if a >= b {
        a
    } else {
        b
    }
}

/// The grammar of an atom, from `pos`, with at most `budget` levels: the
/// tree, where it ends, and its depth; or why there is none.
pub open spec fn g_atom(cs: Seq<char>, pos: int, budget: nat) -> Result<(ExprV, int, nat), ParseError>
    decreases cs.len() - pos, 0nat,
{
    let p = ws_end(cs, pos);
    if pos < 0 || p >= cs.len() {
        Err(ParseError::UnexpectedEnd)
    } else if budget == 0 {
        Err(ParseError::TooDeep(p as usize))
    } else if cs[p] == '(' {
        match g_expr(cs, p + 1, (budget - 1) as nat) {
            Err(err) => Err(err),
            Ok((e, q, d)) => {
                let q2 = ws_end(cs, q);
                if q2 < cs.len() && cs[q2] == ')' {
                    Ok((e, q2 + 1, d))
                } else if q2 >= cs.len() {
                    Err(ParseError::UnexpectedEnd)
                } else {
                    Err(ParseError::Unexpected(q2 as usize))
                }
            },
        }
    } else if digit_of(cs[p]) is Some {
        match scan_digits(cs, p, 0) {
            Err(()) => Err(ParseError::NumberTooLarge(p as usize)),
            Ok((v, q)) => Ok((ExprV::Num(double_bits(v) as u64), q, 1)),
        }
    } else if cs[p] == '"' {
        let q = p + 1 + quote_count(cs, p + 1);
        if q >= cs.len() {
            Err(ParseError::UnexpectedEnd)
        } else {
            Ok((ExprV::Str(cs.subrange(p + 1, q)), q + 1, 1))
        }
    } else if is_ident_start(cs[p]) {
        let w = p + word_count(cs, p);
        let word = cs.subrange(p, w);
        if word == "read"@ {
            Ok((ExprV::Read, w, 1))
        } else if word == "true"@ {
            Ok((ExprV::Bool(true), w, 1))
        } else if word == "false"@ {
            Ok((ExprV::Bool(false), w, 1))
        } else {
            Ok((ExprV::Ident(word), w, 1))
        }
    } else {
        Err(ParseError::Unexpected(p as usize))
    }
}

/// `lhs <op> rhs` when its depth fits in `budget`.
pub open spec fn g_join(lhs: ExprV, dl: nat, op: Op, rhs: ExprV, dr: nat, budget: nat, at: int) -> Result<
    (ExprV, nat),
    ParseError,
> {
    if deeper(dl, dr) >= budget {
        Err(ParseError::TooDeep(at as usize))
    } else {
        Ok((ExprV::Binary(Box::new(lhs), op, Box::new(rhs)), deeper(dl, dr) + 1))
    }
}

/// The grammar of a product: atoms joined by `*` and `/`, grouped from the
/// left.
pub open spec fn g_product(cs: Seq<char>, pos: int, budget: nat) -> Result<(ExprV, int, nat), ParseError>
    decreases cs.len() - pos, 1nat,
{
    match g_atom(cs, pos, budget) {
        Err(err) => Err(err),
        Ok((lhs, q, dl)) => if moved(pos, q, cs.len() as int) {
            g_product_rest(cs, lhs, dl, q, budget)
        } else {
            Err(ParseError::UnexpectedEnd)
        },
    }
}

/// The rest of a product whose left part, `lhs`, ends at `q`.
pub open spec fn g_product_rest(cs: Seq<char>, lhs: ExprV, dl: nat, q: int, budget: nat) -> Result<
    (ExprV, int, nat),
    ParseError,
>
    decreases cs.len() - q, 0nat,
{
    let p = ws_end(cs, q);
    let op = if p < cs.len() && cs[p] == '*' {
        Some(Op::Mult)
    } else if p < cs.len() && cs[p] == '/' {
        Some(Op::Div)
    } else {
        None
    };
    if q < 0 || op is None {
        Ok((lhs, q, dl))
    } else {
        match g_atom(cs, p + 1, budget) {
            Err(err) => Err(err),
            Ok((rhs, q2, dr)) => match g_join(lhs, dl, op->Some_0, rhs, dr, budget, p) {
                Err(err) => Err(err),
                Ok((e, d)) => if moved(p, q2, cs.len() as int) {
                    g_product_rest(cs, e, d, q2, budget)
                } else {
                    Err(ParseError::UnexpectedEnd)
                },
            },
        }
    }
}

/// The grammar of a sum: products joined by `+` and `-`, grouped from the
/// left.
pub open spec fn g_sum(cs: Seq<char>, pos: int, budget: nat) -> Result<(ExprV, int, nat), ParseError>
    decreases cs.len() - pos, 2nat,
{
    match g_product(cs, pos, budget) {
        Err(err) => Err(err),
        Ok((lhs, q, dl)) => if moved(pos, q, cs.len() as int) {
            g_sum_rest(cs, lhs, dl, q, budget)
        } else {
            Err(ParseError::UnexpectedEnd)
        },
    }
}

/// The rest of a sum whose left part, `lhs`, ends at `q`.
pub open spec fn g_sum_rest(cs: Seq<char>, lhs: ExprV, dl: nat, q: int, budget: nat) -> Result<
    (ExprV, int, nat),
    ParseError,
>
    decreases cs.len() - q, 1nat,
{
    let p = ws_end(cs, q);
    let op = if p < cs.len() && cs[p] == '+' {
        Some(Op::Plus)
    } else if p < cs.len() && cs[p] == '-' {
        Some(Op::Minus)
    } else {
        None
    };
    if q < 0 || op is None {
        Ok((lhs, q, dl))
    } else {
        match g_product(cs, p + 1, budget) {
            Err(err) => Err(err),
            Ok((rhs, q2, dr)) => match g_join(lhs, dl, op->Some_0, rhs, dr, budget, p) {
                Err(err) => Err(err),
                Ok((e, d)) => if moved(p, q2, cs.len() as int) {
                    g_sum_rest(cs, e, d, q2, budget)
                } else {
                    Err(ParseError::UnexpectedEnd)
                },
            },
        }
    }
}

/// The grammar of an expression: a sum, or two sums compared.
pub open spec fn g_expr(cs: Seq<char>, pos: int, budget: nat) -> Result<(ExprV, int, nat), ParseError>
    decreases cs.len() - pos, 3nat,
{
    match g_sum(cs, pos, budget) {
        Err(err) => Err(err),
        Ok((lhs, q, dl)) => {
            let p = ws_end(cs, q);
            match comparison_of(cs, p) {
                None => Ok((lhs, q, dl)),
                Some((op, n)) => if !moved(pos, q, cs.len() as int) {
                    Err(ParseError::UnexpectedEnd)
                } else {
                    match g_sum(cs, p + n, budget) {
                        Err(err) => Err(err),
                        Ok((rhs, q2, dr)) => if deeper(dl, dr) >= budget {
                            Err(ParseError::TooDeep(p as usize))
                        } else {
                            Ok(
                                (
                                    ExprV::Comparison(Box::new(lhs), op, Box::new(rhs)),
                                    q2,
                                    deeper(dl, dr) + 1,
                                ),
                            )
                        },
                    }
                },
            }
        },
    }
}

/// The grammar of a statement.
pub open spec fn g_stmt(cs: Seq<char>, pos: int, budget: nat) -> Result<(StmtV, int, nat), ParseError>
    decreases cs.len() - pos, 5nat,
{
    let p = ws_end(cs, pos);
    if pos < 0 || p >= cs.len() {
        Err(ParseError::UnexpectedEnd)
    } else if budget == 0 {
        Err(ParseError::TooDeep(p as usize))
    } else if cs[p] == '{' {
        match g_block_rest(cs, Seq::empty(), 0, p + 1, (budget - 1) as nat) {
            Err(err) => Err(err),
            Ok((code, q, d)) => Ok((StmtV::Block(code), q, d + 1)),
        }
    } else if cs[p] == '\'' {
        g_bash(cs, p)
    } else if is_ident_start(cs[p]) && cs.subrange(p, p + word_count(cs, p)) == "if"@ {
        g_if(cs, p, (budget - 1) as nat)
    } else if is_ident_start(cs[p]) && cs.subrange(p, p + word_count(cs, p)) == "print"@ {
        let w = p + word_count(cs, p);
        match g_expr(cs, w, (budget - 1) as nat) {
            Err(err) => Err(err),
            Ok((e, q, d)) => Ok((StmtV::Print(Box::new(e)), semi_end(cs, q), d + 1)),
        }
    } else if is_ident_start(cs[p]) && cs.subrange(p, p + word_count(cs, p)) == "let"@ {
        let w = p + word_count(cs, p);
        let ns = ws_end(cs, w);
        if ns >= cs.len() {
            Err(ParseError::UnexpectedEnd)
        } else if !is_ident_start(cs[ns]) {
            Err(ParseError::Unexpected(ns as usize))
        } else {
            g_assign(cs, ns, ns + word_count(cs, ns), budget)
        }
    } else if is_ident_start(cs[p]) && assign_at(cs, p + word_count(cs, p)) {
        g_assign(cs, p, p + word_count(cs, p), budget)
    } else {
        match g_expr(cs, p, (budget - 1) as nat) {
            Err(err) => Err(err),
            Ok((e, q, d)) => {
                let q1 = ws_end(cs, q);
                if q1 < cs.len() && cs[q1] == '?' {
                    Ok((StmtV::Print(Box::new(e)), semi_end(cs, q1 + 1), d + 1))
                } else {
                    Ok((StmtV::Expr(Box::new(e)), semi_end(cs, q), d + 1))
                }
            },
        }
    }
}

/// A shell statement, whose `'` is at `p`.
pub open spec fn g_bash(cs: Seq<char>, p: int) -> Result<(StmtV, int, nat), ParseError> {
    let q = p + 2 + quote_count(cs, p + 2);
    if p < 0 || p + 1 >= cs.len() {
        Err(ParseError::UnexpectedEnd)
    } else if cs[p + 1] != '"' {
        Err(ParseError::Unexpected((p + 1) as usize))
    } else if q + 1 >= cs.len() {
        Err(ParseError::UnexpectedEnd)
    } else if cs[q + 1] != '\'' {
        Err(ParseError::Unexpected((q + 1) as usize))
    } else {
        Ok((StmtV::Bash(cs.subrange(p + 2, q)), semi_end(cs, q + 2), 1))
    }
}

/// An `if` statement, whose keyword starts at `p`; its parts have at most
/// `budget` levels.
pub open spec fn g_if(cs: Seq<char>, p: int, budget: nat) -> Result<(StmtV, int, nat), ParseError>
    decreases cs.len() - p, 4nat,
{
    let w = p + word_count(cs, p);
    if p < 0 {
        Err(ParseError::UnexpectedEnd)
    } else {
        match g_expr(cs, w, budget) {
            Err(err) => Err(err),
            Ok((cond, q, dc)) => {
                let q1 = ws_end(cs, q);
                if !moved(w, q, cs.len() as int) || q1 >= cs.len() {
                    Err(ParseError::UnexpectedEnd)
                } else if cs[q1] != '{' {
                    Err(ParseError::Unexpected(q1 as usize))
                } else {
                    match g_block_rest(cs, Seq::empty(), 0, q1 + 1, budget) {
                        Err(err) => Err(err),
                        Ok((code, q2, db)) => Ok(
                            (StmtV::If(Box::new(cond), code), q2, deeper(dc, db) + 1),
                        ),
                    }
                }
            },
        }
    }
}

/// Whether a single `=` (not `==`) follows the name that ends at `e`.
pub open spec fn assign_at(cs: Seq<char>, e: int) -> bool {
    let q = ws_end(cs, e);
    q < cs.len() && cs[q] == '=' && !(q + 1 < cs.len() && cs[q + 1] == '=')
}

/// An assignment to the name from `ns` to `ne`, when `=` follows it.
pub open spec fn g_assign(cs: Seq<char>, ns: int, ne: int, budget: nat) -> Result<
    (StmtV, int, nat),
    ParseError,
>
    decreases cs.len() - ns, 3nat,
{
    let q = ws_end(cs, ne);
    if ns < 0 || ne < ns || budget == 0 {
        Err(ParseError::UnexpectedEnd)
    } else if assign_at(cs, ne) {
        match g_expr(cs, q + 1, (budget - 1) as nat) {
            Err(err) => Err(err),
            Ok((e, q2, d)) => Ok(
                (StmtV::Assign(cs.subrange(ns, ne), Box::new(e)), semi_end(cs, q2), d + 1),
            ),
        }
    } else if q >= cs.len() {
        Err(ParseError::UnexpectedEnd)
    } else {
        Err(ParseError::Unexpected(q as usize))
    }
}

/// The statements of a block from `q` on, after those in `acc` (of depth
/// `depth`), up to its closing `}`.
pub open spec fn g_block_rest(
    cs: Seq<char>,
    acc: Seq<StmtV>,
    depth: nat,
    q: int,
    budget: nat,
) -> Result<(Seq<StmtV>, int, nat), ParseError>
    decreases cs.len() - q, 6nat,
{
    let p = ws_end(cs, q);
    if q < 0 || p >= cs.len() {
        Err(ParseError::UnexpectedEnd)
    } else if cs[p] == '}' {
        Ok((acc, p + 1, depth))
    } else {
        match g_stmt(cs, p, budget) {
            Err(err) => Err(err),
            Ok((s, q2, d)) => if moved(p, q2, cs.len() as int) {
                g_block_rest(cs, acc.push(s), deeper(depth, d), q2, budget)
            } else {
                Err(ParseError::UnexpectedEnd)
            },
        }
    }
}

/// The statements of a program from `q` on, after those in `acc`.
pub open spec fn g_program_rest(cs: Seq<char>, acc: Seq<StmtV>, q: int) -> Result<Seq<StmtV>, ParseError>
    decreases cs.len() - q,
{
    let p = ws_end(cs, q);
    if q < 0 || p >= cs.len() {
        Ok(acc)
    } else {
        match g_stmt(cs, p, MAX_DEPTH as nat) {
            Err(err) => Err(err),
            Ok((s, q2, _)) => if moved(p, q2, cs.len() as int) {
                g_program_rest(cs, acc.push(s), q2)
            } else {
                Err(ParseError::UnexpectedEnd)
            },
        }
    }
}

/// The grammar of a whole program: the statements that the text spells, or
/// why it spells none.
pub open spec fn g_program(cs: Seq<char>) -> Result<Seq<StmtV>, ParseError> {
    g_program_rest(cs, Seq::empty(), 0)
}

/// The text spells the program `p`. A text spells at most one program, and
/// a text that the grammar rejects spells none.
pub open spec fn derives(s: Seq<char>, p: Seq<StmtV>) -> bool {
    g_program(s) == Ok::<Seq<StmtV>, ParseError>(p)
}

/// A text spells at most one program.
pub proof fn law_derivation_unique(s: Seq<char>, p: Seq<StmtV>, q: Seq<StmtV>)
    requires
        derives(s, p),
        derives(s, q),
    ensures
        p == q,
{
}

/// A text that the grammar rejects spells no program.
pub proof fn law_rejected_spells_nothing(s: Seq<char>, p: Seq<StmtV>)
    requires
        g_program(s) is Err,
    ensures
        !derives(s, p),
{
}

/// The view of a parse of an expression.
pub open spec fn expr_result(r: Result<(Expr, usize, usize), ParseError>) -> Result<
    (ExprV, int, nat),
    ParseError,
> {
    match r {
        Ok((e, p, d)) => Ok((expr_view(e), p as int, d as nat)),
        Err(err) => Err(err),
    }
}

/// The view of a parse of a statement.
pub open spec fn stmt_result(r: Result<(Stmt, usize, usize), ParseError>) -> Result<
    (StmtV, int, nat),
    ParseError,
> {
    match r {
        Ok((s, p, d)) => Ok((stmt_view(s), p as int, d as nat)),
        Err(err) => Err(err),
    }
}

/// The view of a parse of a block.
pub open spec fn block_result(r: Result<(Vec<Stmt>, usize, usize), ParseError>) -> Result<
    (Seq<StmtV>, int, nat),
    ParseError,
> {
    match r {
        Ok((ss, p, d)) => Ok((block_view(ss@), p as int, d as nat)),
        Err(err) => Err(err),
    }
}

/// The view of a parse of a program.
pub open spec fn program_result(r: Result<Vec<Stmt>, ParseError>) -> Result<Seq<StmtV>, ParseError> {
    match r {
        Ok(ss) => Ok(block_view(ss@)),
        Err(err) => Err(err),
    }
}

/// The end of a run of digits is not before its start.
proof fn lemma_scan_moves(cs: Seq<char>, q: int, v: nat)
    ensures
        scan_digits(cs, q, v) matches Ok((_, e)) ==> e >= q,
        0 <= q < cs.len() && digit_of(cs[q]) is Some ==> (scan_digits(cs, q, v) matches Ok((_, e))
            ==> e > q),
    decreases cs.len() - q,
{
    if 0 <= q < cs.len() && digit_of(cs[q]) is Some {
        let d = digit_of(cs[q])->Some_0;
        if v <= (MAX_LITERAL - d) / 10 {
            lemma_scan_moves(cs, q + 1, v * 10 + d);
        }
    }
}

/// Reads the decimal digits from `p`: their value and where they end, or
/// `Err` when the value exceeds 2^53.
fn scan_number(cs: &Vec<char>, p: usize) -> (r: Result<(u64, usize), ()>)
    requires
        p <= cs@.len(),
    ensures
        match r {
            Ok((v, q)) => scan_digits(cs@, p as int, 0) == Ok::<(nat, int), ()>((v as nat, q as int))
                && v <= MAX_LITERAL && p <= q <= cs@.len(),
            Err(()) => scan_digits(cs@, p as int, 0) is Err,
        },
{
    let mut q = p;
    let mut v: u64 = 0;
    while q < cs.len() && digit_value(cs[q]).is_some()
        invariant
            p <= q <= cs@.len(),
            v <= MAX_LITERAL,
            scan_digits(cs@, p as int, 0) == scan_digits(cs@, q as int, v as nat),
        decreases cs@.len() - q,
    {
        let d = digit_value(cs[q]).unwrap();
        if v > (MAX_LITERAL - d) / 10 {
            return Err(());
        }
        v = v * 10 + d;
        q = q + 1;
    }
    Ok((v, q))
}

/// Parses an atom: a literal, an identifier, `read`, or an expression in
/// parentheses; with its depth, at most `budget`.
fn parse_atom(src: &str, cs: &Vec<char>, pos: usize, budget: usize) -> (r: Result<
    (Expr, usize, usize),
    ParseError,
>)
    requires
        cs@ == src@,
        pos <= cs@.len(),
    ensures
        r matches Ok((e, p, d)) ==> pos < p <= cs@.len() && d == expr_depth(e) && d <= budget
            && parsed_expr(e),
        expr_result(r) == g_atom(cs@, pos as int, budget as nat),
    decreases cs@.len() - pos, 0nat,
{
    let p = skip_ws(cs, pos);
    if p >= cs.len() {
        return Err(ParseError::UnexpectedEnd);
    }
    if budget == 0 {
        return Err(ParseError::TooDeep(p));
    }
    let c = cs[p];
    if c == '(' {
        // parentheses add no node, but they do add a level of recursion
        let (e, q, d) = match parse_expr(src, cs, p + 1, budget - 1) {
            Ok(x) => x,
            Err(err) => {
                return Err(err);
            },
        };
        let q2 = skip_ws(cs, q);
        return if q2 < cs.len() && cs[q2] == ')' {
            Ok((e, q2 + 1, d))
        } else if q2 >= cs.len() {
            Err(ParseError::UnexpectedEnd)
        } else {
            Err(ParseError::Unexpected(q2))
        };
    }
    if '0' <= c && c <= '9' {
        let (v, q) = match scan_number(cs, p) {
            Ok(x) => x,
            Err(()) => {
                return Err(ParseError::NumberTooLarge(p));
            },
        };
        proof {
            lemma_scan_moves(cs@, p as int, 0);
        }
        let bits = double_of_int(v);
        assert(is_literal_bits(bits)) by {
            assert(bits as nat == double_bits(v as nat));
        }
        Ok((Expr::Num(bits), q, 1))
    } else if c == '"' {
        let mut q = p + 1;
        while q < cs.len() && cs[q] != '"'
            invariant
                p < q <= cs@.len(),
                forall|k: int| p < k < q ==> cs@[k] != '"',
                p + 1 + quote_count(cs@, p + 1) == q + quote_count(cs@, q as int),
            decreases cs@.len() - q,
        {
            q = q + 1;
        }
        if q >= cs.len() {
            return Err(ParseError::UnexpectedEnd);
        }
        let t = text(src, p + 1, q);
        assert(no_quote(t@)) by {
            assert forall|k: int| 0 <= k < t@.len() implies t@[k] != '"' by {
                assert(t@[k] == cs@[p + 1 + k]);
            }
        }
        Ok((Expr::Str(t), q + 1, 1))
    } else if ('a' <= c && c <= 'z') || ('A' <= c && c <= 'Z') || c == '_' {
        let w = word_end(cs, p);
        if spells(cs, p, w, "read") {
            Ok((Expr::Read, w, 1))
        } else if spells(cs, p, w, "true") {
            Ok((Expr::Bool(true), w, 1))
        } else if spells(cs, p, w, "false") {
            Ok((Expr::Bool(false), w, 1))
        } else {
            let n = text(src, p, w);
            proof {
                lemma_name(cs@, p as int, w as int);
            }
            Ok((Expr::Ident(n), w, 1))
        }
    } else {
        Err(ParseError::Unexpected(p))
    }
}

/// A word that starts with an identifier start is a name.
proof fn lemma_name(cs: Seq<char>, p: int, w: int)
    requires
        0 <= p < w <= cs.len(),
        is_ident_start(cs[p]),
        forall|k: int| p <= k < w ==> is_ident_char(cs[k]),
    ensures
        is_name(cs.subrange(p, w)),
{
    let t = cs.subrange(p, w);
    assert forall|k: int| 0 <= k < t.len() implies is_ident_char(#[trigger] t[k]) by {
        assert(t[k] == cs[p + k]);
    }
}

/// `lhs <op> rhs`, given the depths of both sides, when it fits in `budget`.
fn join_binary(lhs: Expr, dl: usize, op: Op, rhs: Expr, dr: usize, budget: usize, at: usize) -> (r:
    Result<(Expr, usize), ParseError>)
    requires
        dl == expr_depth(lhs),
        dr == expr_depth(rhs),
        dl <= budget,
        dr <= budget,
        parsed_expr(lhs),
        parsed_expr(rhs),
    ensures
        r matches Ok((e, d)) ==> d == expr_depth(e) && d <= budget && parsed_expr(e),
        match r {
            Ok((e, d)) => g_join(
                expr_view(lhs),
                dl as nat,
                op,
                expr_view(rhs),
                dr as nat,
                budget as nat,
                at as int,
            ) == Ok::<(ExprV, nat), ParseError>((expr_view(e), d as nat)),
            Err(err) => g_join(
                expr_view(lhs),
                dl as nat,
                op,
                expr_view(rhs),
                dr as nat,
                budget as nat,
                at as int,
            ) == Err::<(ExprV, nat), ParseError>(err),
        },
{
    let d = if dl >= dr {
        dl
    } else {
        dr
    };
    if d >= budget {
        return Err(ParseError::TooDeep(at));
    }
    let e = Expr::Binary(BinaryExpr { lhs: Box::new(lhs), op, rhs: Box::new(rhs) });
    assert(expr_depth(e) == 1 + max_nat(dl as nat, dr as nat));
    Ok((e, d + 1))
}

/// Parses atoms joined by `*` and `/`, grouped from the left.
fn parse_product(src: &str, cs: &Vec<char>, pos: usize, budget: usize) -> (r: Result<
    (Expr, usize, usize),
    ParseError,
>)
    requires
        cs@ == src@,
        pos <= cs@.len(),
    ensures
        r matches Ok((e, p, d)) ==> pos < p <= cs@.len() && d == expr_depth(e) && d <= budget
            && parsed_expr(e),
        expr_result(r) == g_product(cs@, pos as int, budget as nat),
    decreases cs@.len() - pos, 1nat,
{
    let (mut lhs, mut q, mut dl) = match parse_atom(src, cs, pos, budget) {
        Ok(x) => x,
        Err(err) => {
            return Err(err);
        },
    };
    loop
        invariant
            cs@ == src@,
            pos < q <= cs@.len(),
            dl == expr_depth(lhs),
            dl <= budget,
            parsed_expr(lhs),
            g_product(cs@, pos as int, budget as nat) == g_product_rest(
                cs@,
                expr_view(lhs),
                dl as nat,
                q as int,
                budget as nat,
            ),
        ensures
            pos < q <= cs@.len(),
            dl == expr_depth(lhs),
            dl <= budget,
            parsed_expr(lhs),
            g_product(cs@, pos as int, budget as nat) == Ok::<(ExprV, int, nat), ParseError>(
                (expr_view(lhs), q as int, dl as nat),
            ),
        decreases cs@.len() - q,
    {
        let p = skip_ws(cs, q);
        let op = if p < cs.len() && cs[p] == '*' {
            Op::Mult
        } else if p < cs.len() && cs[p] == '/' {
            Op::Div
        } else {
            break ;
        };
        let (rhs, q2, dr) = match parse_atom(src, cs, p + 1, budget) {
            Ok(x) => x,
            Err(err) => {
                return Err(err);
            },
        };
        let (e, d) = match join_binary(lhs, dl, op, rhs, dr, budget, p) {
            Ok(x) => x,
            Err(err) => {
                return Err(err);
            },
        };
        lhs = e;
        dl = d;
        q = q2;
    }
    Ok((lhs, q, dl))
}

/// Parses products joined by `+` and `-`, grouped from the left.
fn parse_sum(src: &str, cs: &Vec<char>, pos: usize, budget: usize) -> (r: Result<
    (Expr, usize, usize),
    ParseError,
>)
    requires
        cs@ == src@,
        pos <= cs@.len(),
    ensures
        r matches Ok((e, p, d)) ==> pos < p <= cs@.len() && d == expr_depth(e) && d <= budget
            && parsed_expr(e),
        expr_result(r) == g_sum(cs@, pos as int, budget as nat),
    decreases cs@.len() - pos, 2nat,
{
    let (mut lhs, mut q, mut dl) = match parse_product(src, cs, pos, budget) {
        Ok(x) => x,
        Err(err) => {
            return Err(err);
        },
    };
    loop
        invariant
            cs@ == src@,
            pos < q <= cs@.len(),
            dl == expr_depth(lhs),
            dl <= budget,
            parsed_expr(lhs),
            g_sum(cs@, pos as int, budget as nat) == g_sum_rest(
                cs@,
                expr_view(lhs),
                dl as nat,
                q as int,
                budget as nat,
            ),
        ensures
            pos < q <= cs@.len(),
            dl == expr_depth(lhs),
            dl <= budget,
            parsed_expr(lhs),
            g_sum(cs@, pos as int, budget as nat) == Ok::<(ExprV, int, nat), ParseError>(
                (expr_view(lhs), q as int, dl as nat),
            ),
        decreases cs@.len() - q,
    {
        let p = skip_ws(cs, q);
        let op = if p < cs.len() && cs[p] == '+' {
            Op::Plus
        } else if p < cs.len() && cs[p] == '-' {
            Op::Minus
        } else {
            break ;
        };
        let (rhs, q2, dr) = match parse_product(src, cs, p + 1, budget) {
            Ok(x) => x,
            Err(err) => {
                return Err(err);
            },
        };
        let (e, d) = match join_binary(lhs, dl, op, rhs, dr, budget, p) {
            Ok(x) => x,
            Err(err) => {
                return Err(err);
            },
        };
        lhs = e;
        dl = d;
        q = q2;
    }
    Ok((lhs, q, dl))
}

/// The comparison operator at `p`, with its length, if there is one.
fn comparison_at(cs: &Vec<char>, p: usize) -> (r: Option<(CompareOp, usize)>)
    requires
        p <= cs@.len(),
    ensures
        r matches Some((_, n)) ==> 1 <= n <= 2 && p + n <= cs@.len(),
        match r {
            Some((op, n)) => comparison_of(cs@, p as int) == Some((op, n as int)),
            None => comparison_of(cs@, p as int) is None,
        },
{
    if p >= cs.len() {
        return None;
    }
    let c = cs[p];
    let next_is_eq = p + 1 < cs.len() && cs[p + 1] == '=';
    if c == '=' && next_is_eq {
        Some((CompareOp::Equal, 2))
    } else if c == '!' && next_is_eq {
        Some((CompareOp::NotEqual, 2))
    } else if c == '<' && next_is_eq {
        Some((CompareOp::LessEqual, 2))
    } else if c == '>' && next_is_eq {
        Some((CompareOp::GreaterEqual, 2))
    } else if c == '<' {
        Some((CompareOp::Less, 1))
    } else if c == '>' {
        Some((CompareOp::Greater, 1))
    } else {
        None
    }
}

/// Parses an expression: a sum, or two sums compared.
fn parse_expr(src: &str, cs: &Vec<char>, pos: usize, budget: usize) -> (r: Result<
    (Expr, usize, usize),
    ParseError,
>)
    requires
        cs@ == src@,
        pos <= cs@.len(),
    ensures
        r matches Ok((e, p, d)) ==> pos < p <= cs@.len() && d == expr_depth(e) && d <= budget
            && parsed_expr(e),
        expr_result(r) == g_expr(cs@, pos as int, budget as nat),
    decreases cs@.len() - pos, 3nat,
{
    let (lhs, q, dl) = match parse_sum(src, cs, pos, budget) {
        Ok(x) => x,
        Err(err) => {
            return Err(err);
        },
    };
    let p = skip_ws(cs, q);
    match comparison_at(cs, p) {
        Some((op, n)) => {
            let len = cs.len();
            assert(p + n <= len);
            let (rhs, q2, dr) = match parse_sum(src, cs, p + n, budget) {
                Ok(x) => x,
                Err(err) => {
                    return Err(err);
                },
            };
            let d = if dl >= dr {
                dl
            } else {
                dr
            };
            if d >= budget {
                return Err(ParseError::TooDeep(p));
            }
            let e = Expr::Comparison { lhs: Box::new(lhs), op, rhs: Box::new(rhs) };
            assert(expr_depth(e) == 1 + max_nat(dl as nat, dr as nat));
            Ok((e, q2, d + 1))
        },
        None => Ok((lhs, q, dl)),
    }
}

/// Parses a shell statement, whose `'` is at `p`.
fn parse_bash(src: &str, cs: &Vec<char>, p: usize) -> (r: Result<(Stmt, usize, usize), ParseError>)
    requires
        cs@ == src@,
        p < cs@.len(),
    ensures
        r matches Ok((s, q, d)) ==> p < q <= cs@.len() && d == stmt_depth(s) && d == 1
            && parsed_stmt(s),
        stmt_result(r) == g_bash(cs@, p as int),
{
    if cs.len() - p <= 1 {
        return Err(ParseError::UnexpectedEnd);
    }
    if cs[p + 1] != '"' {
        return Err(ParseError::Unexpected(p + 1));
    }
    let mut q = p + 2;
    while q < cs.len() && cs[q] != '"'
        invariant
            p + 2 <= q <= cs@.len(),
            forall|k: int| p + 2 <= k < q ==> cs@[k] != '"',
            p + 2 + quote_count(cs@, p + 2) == q + quote_count(cs@, q as int),
        decreases cs@.len() - q,
    {
        q = q + 1;
    }
    assert(q as int == p + 2 + quote_count(cs@, p + 2));
    if q >= cs.len() || q + 1 >= cs.len() {
        return Err(ParseError::UnexpectedEnd);
    }
    if cs[q + 1] != '\'' {
        return Err(ParseError::Unexpected(q + 1));
    }
    let cmd = text(src, p + 2, q);
    assert(no_quote(cmd@)) by {
        assert forall|k: int| 0 <= k < cmd@.len() implies cmd@[k] != '"' by {
            assert(cmd@[k] == cs@[p + 2 + k]);
        }
    }
    Ok((Stmt::Bash(cmd), skip_semicolon(cs, q + 2), 1))
}

/// Parses an `if` statement, whose keyword starts at `p`; its parts have at
/// most `budget` levels.
fn parse_if(src: &str, cs: &Vec<char>, p: usize, budget: usize) -> (r: Result<
    (Stmt, usize, usize),
    ParseError,
>)
    requires
        cs@ == src@,
        p < cs@.len(),
        is_ident_start(cs@[p as int]),
        budget < usize::MAX,
    ensures
        r matches Ok((s, q, d)) ==> p < q <= cs@.len() && d == stmt_depth(s) && d <= budget + 1
            && parsed_stmt(s),
        stmt_result(r) == g_if(cs@, p as int, budget as nat),
    decreases cs@.len() - p, 4nat,
{
    let w = word_end(cs, p);
    let (cond, q, dc) = match parse_expr(src, cs, w, budget) {
        Ok(x) => x,
        Err(err) => {
            return Err(err);
        },
    };
    let q1 = skip_ws(cs, q);
    if q1 >= cs.len() {
        return Err(ParseError::UnexpectedEnd);
    }
    if cs[q1] != '{' {
        return Err(ParseError::Unexpected(q1));
    }
    let (code, q2, db) = match parse_block(src, cs, q1 + 1, budget) {
        Ok(x) => x,
        Err(err) => {
            return Err(err);
        },
    };
    let d = if dc >= db {
        dc
    } else {
        db
    };
    Ok((Stmt::If { comparison: Box::new(cond), code }, q2, d + 1))
}

/// Parses a statement.
fn parse_stmt(src: &str, cs: &Vec<char>, pos: usize, budget: usize) -> (r: Result<
    (Stmt, usize, usize),
    ParseError,
>)
    requires
        cs@ == src@,
        pos <= cs@.len(),
    ensures
        r matches Ok((s, p, d)) ==> pos < p <= cs@.len() && d == stmt_depth(s) && d <= budget
            && parsed_stmt(s),
        stmt_result(r) == g_stmt(cs@, pos as int, budget as nat),
    decreases cs@.len() - pos, 5nat,
{
    let p = skip_ws(cs, pos);
    if p >= cs.len() {
        return Err(ParseError::UnexpectedEnd);
    }
    if budget == 0 {
        return Err(ParseError::TooDeep(p));
    }
    let c = cs[p];
    if c == '{' {
        let (code, q, d) = match parse_block(src, cs, p + 1, budget - 1) {
            Ok(x) => x,
            Err(err) => {
                return Err(err);
            },
        };
        return Ok((Stmt::Block(code), q, d + 1));
    }
    if c == '\'' {
        return parse_bash(src, cs, p);
    }
    if ('a' <= c && c <= 'z') || ('A' <= c && c <= 'Z') || c == '_' {
        let w = word_end(cs, p);
        if spells(cs, p, w, "if") {
            return parse_if(src, cs, p, budget - 1);
        }
        if spells(cs, p, w, "print") {
            let (e, q, d) = match parse_expr(src, cs, w, budget - 1) {
                Ok(x) => x,
                Err(err) => {
                    return Err(err);
                },
            };
            return Ok(
                (Stmt::Print(PrintStmt { value: Box::new(e) }), skip_semicolon(cs, q), d + 1),
            );
        }
        let (name_start, name_end) = if spells(cs, p, w, "let") {
            let q = skip_ws(cs, w);
            if q >= cs.len() {
                return Err(ParseError::UnexpectedEnd);
            }
            let d = cs[q];
            if !(('a' <= d && d <= 'z') || ('A' <= d && d <= 'Z') || d == '_') {
                return Err(ParseError::Unexpected(q));
            }
            (q, word_end(cs, q))
        } else {
            (p, w)
        };
        let q = skip_ws(cs, name_end);
        let is_assign = q < cs.len() && cs[q] == '=' && !(q + 1 < cs.len() && cs[q + 1] == '=');
        if is_assign {
            let name = text(src, name_start, name_end);
            proof {
                lemma_name(cs@, name_start as int, name_end as int);
            }
            let (e, q2, d) = match parse_expr(src, cs, q + 1, budget - 1) {
                Ok(x) => x,
                Err(err) => {
                    return Err(err);
                },
            };
            return Ok(
                (
                    Stmt::Assign(AssignStmt { name, value: Box::new(e) }),
                    skip_semicolon(cs, q2),
                    d + 1,
                ),
            );
        } else if name_start != p {
            return if q >= cs.len() {
                Err(ParseError::UnexpectedEnd)
            } else {
                Err(ParseError::Unexpected(q))
            };
        }
    }
    let (e, q, d) = match parse_expr(src, cs, p, budget - 1) {
        Ok(x) => x,
        Err(err) => {
            return Err(err);
        },
    };
    let q1 = skip_ws(cs, q);
    if q1 < cs.len() && cs[q1] == '?' {
        Ok((Stmt::Print(PrintStmt { value: Box::new(e) }), skip_semicolon(cs, q1 + 1), d + 1))
    } else {
        Ok((Stmt::Expr(Box::new(e)), skip_semicolon(cs, q), d + 1))
    }
}

/// Parses statements up to the `}` that closes a block.
fn parse_block(src: &str, cs: &Vec<char>, pos: usize, budget: usize) -> (r: Result<
    (Vec<Stmt>, usize, usize),
    ParseError,
>)
    requires
        cs@ == src@,
        pos <= cs@.len(),
    ensures
        r matches Ok((ss, p, d)) ==> pos < p <= cs@.len() && d == block_depth(ss@) && d
            <= budget && parsed_block(ss@),
        block_result(r) == g_block_rest(cs@, Seq::empty(), 0, pos as int, budget as nat),
    decreases cs@.len() - pos, 6nat,
{
    let mut code: Vec<Stmt> = Vec::new();
    let mut q = pos;
    let mut depth: usize = 0;
    loop
        invariant
            cs@ == src@,
            pos <= q <= cs@.len(),
            depth == block_depth(code@),
            depth <= budget,
            parsed_block(code@),
            g_block_rest(cs@, Seq::empty(), 0, pos as int, budget as nat) == g_block_rest(
                cs@,
                block_view(code@),
                depth as nat,
                q as int,
                budget as nat,
            ),
        decreases cs@.len() - q,
    {
        let p = skip_ws(cs, q);
        if p >= cs.len() {
            return Err(ParseError::UnexpectedEnd);
        }
        if cs[p] == '}' {
            return Ok((code, p + 1, depth));
        }
        let (s, q2, d) = match parse_stmt(src, cs, p, budget) {
            Ok(x) => x,
            Err(err) => {
                return Err(err);
            },
        };
        let ghost before = code@;
        code.push(s);
        proof {
            assert(code@.drop_last() =~= before);
        }
        if d > depth {
            depth = d;
        }
        q = q2;
    }
}

/// Parses a whole program. Each statement of the result nests at most
/// `MAX_DEPTH` deep; text that holds nothing but spaces is the empty program.
pub fn parse_program(src: &str) -> (r: Result<Vec<Stmt>, ParseError>)
    ensures
        program_result(r) == g_program(src@),
        r matches Ok(p) ==> parsed_block(p@) && forall|i: int|
            0 <= i < p@.len() ==> stmt_depth(#[trigger] p@[i]) <= MAX_DEPTH,
        (forall|k: int| 0 <= k < src@.len() ==> is_space(#[trigger] src@[k])) ==> (r matches Ok(
            p,
        ) && p@.len() == 0),
{
    let cs = chars_of(src);
    let mut stmts: Vec<Stmt> = Vec::new();
    let mut q: usize = 0;
    loop
        invariant
            cs@ == src@,
            q <= cs@.len(),
            forall|i: int| 0 <= i < stmts@.len() ==> stmt_depth(#[trigger] stmts@[i]) <= MAX_DEPTH,
            parsed_block(stmts@),
            g_program(src@) == g_program_rest(src@, block_view(stmts@), q as int),
            (forall|k: int| 0 <= k < src@.len() ==> is_space(#[trigger] src@[k])) ==> stmts@.len()
                == 0,
        decreases cs@.len() - q,
    {
        let p = skip_ws(&cs, q);
        if p >= cs.len() {
            return Ok(stmts);
        }
        proof {
            assert(!is_space(src@[p as int]));
        }
        let (s, q2, _) = match parse_stmt(src, &cs, p, MAX_DEPTH) {
            Ok(x) => x,
            Err(err) => {
                return Err(err);
            },
        };
        let ghost before = stmts@;
        stmts.push(s);
        proof {
            assert(stmts@.drop_last() =~= before);
        }
        q = q2;
    }
}


/// `print 23;` spells one statement: the print of the number 23.
pub proof fn law_print_23_parses()
    ensures
        derives(
            "print 23;"@,
            seq![StmtV::Print(Box::new(ExprV::Num(double_bits(23) as u64)))],
        ),
{
    reveal_strlit("print 23;");
    reveal_strlit("if");
    reveal_strlit("print");
    reveal_with_fuel(word_count, 7);
    reveal_with_fuel(ws_count, 3);
    reveal_with_fuel(scan_digits, 4);
    reveal_with_fuel(g_program_rest, 2);
    let s = "print 23;"@;
    assert(s.len() == 9);
    assert(ws_end(s, 0) == 0);
    assert(word_count(s, 0) == 5);
    assert(s.subrange(0, 5) =~= "print"@);
    assert(s.subrange(0, 5) != "if"@);
    assert(ws_end(s, 5) == 6);
    assert(digit_of(s[6]) == Some(2nat));
    assert(digit_of(s[7]) == Some(3nat));
    assert(digit_of(s[8]) is None);
    assert(scan_digits(s, 6, 0) == Ok::<(nat, int), ()>((23nat, 8int)));
    let n = ExprV::Num(double_bits(23) as u64);
    assert(g_atom(s, 5, 255) == Ok::<(ExprV, int, nat), ParseError>((n, 8, 1)));
    assert(ws_end(s, 8) == 8);
    assert(g_product_rest(s, n, 1, 8, 255) == Ok::<(ExprV, int, nat), ParseError>((n, 8, 1)));
    assert(g_product(s, 5, 255) == Ok::<(ExprV, int, nat), ParseError>((n, 8, 1)));
    assert(g_sum_rest(s, n, 1, 8, 255) == Ok::<(ExprV, int, nat), ParseError>((n, 8, 1)));
    assert(g_sum(s, 5, 255) == Ok::<(ExprV, int, nat), ParseError>((n, 8, 1)));
    assert(comparison_of(s, 8) is None);
    assert(g_expr(s, 5, 255) == Ok::<(ExprV, int, nat), ParseError>((n, 8, 1)));
    assert(semi_end(s, 8) == 9);
    let st = StmtV::Print(Box::new(n));
    assert(g_stmt(s, 0, 256) == Ok::<(StmtV, int, nat), ParseError>((st, 9, 2)));
    assert(g_program_rest(s, seq![st], 9) == Ok::<Seq<StmtV>, ParseError>(seq![st]));
    assert(Seq::<StmtV>::empty().push(st) =~= seq![st]);
}


/// `print 2 + 2 * 3;` spells the print of `2 + (2 * 3)`: `*` binds tighter
/// than `+`.
pub proof fn law_product_binds_tighter()
    ensures
        ({
            let two = ExprV::Num(double_bits(2) as u64);
            let three = ExprV::Num(double_bits(3) as u64);
            let product = ExprV::Binary(Box::new(two), Op::Mult, Box::new(three));
            derives(
                "print 2 + 2 * 3;"@,
                seq![StmtV::Print(Box::new(ExprV::Binary(Box::new(two), Op::Plus, Box::new(product))))],
            )
        }),
{
    reveal_strlit("print 2 + 2 * 3;");
    reveal_strlit("if");
    reveal_strlit("print");
    reveal_with_fuel(word_count, 7);
    reveal_with_fuel(ws_count, 3);
    reveal_with_fuel(scan_digits, 3);
    reveal_with_fuel(g_program_rest, 2);
    let s = "print 2 + 2 * 3;"@;
    let two = ExprV::Num(double_bits(2) as u64);
    let three = ExprV::Num(double_bits(3) as u64);
    let product = ExprV::Binary(Box::new(two), Op::Mult, Box::new(three));
    let sum = ExprV::Binary(Box::new(two), Op::Plus, Box::new(product));
    assert(s.len() == 16);
    assert(ws_end(s, 0) == 0);
    assert(word_count(s, 0) == 5);
    assert(s.subrange(0, 5) =~= "print"@);
    assert(s.subrange(0, 5) != "if"@);
    assert(ws_end(s, 5) == 6);
    assert(ws_end(s, 7) == 8);
    assert(ws_end(s, 9) == 10);
    assert(ws_end(s, 11) == 12);
    assert(ws_end(s, 13) == 14);
    assert(ws_end(s, 15) == 15);
    assert(digit_of(s[6]) == Some(2nat));
    assert(digit_of(s[10]) == Some(2nat));
    assert(digit_of(s[14]) == Some(3nat));
    assert(digit_of(s[7]) is None);
    assert(digit_of(s[11]) is None);
    assert(digit_of(s[15]) is None);
    assert(scan_digits(s, 6, 0) == Ok::<(nat, int), ()>((2nat, 7int)));
    assert(scan_digits(s, 10, 0) == Ok::<(nat, int), ()>((2nat, 11int)));
    assert(scan_digits(s, 14, 0) == Ok::<(nat, int), ()>((3nat, 15int)));
    assert(g_atom(s, 5, 255) == Ok::<(ExprV, int, nat), ParseError>((two, 7, 1)));
    assert(g_atom(s, 9, 255) == Ok::<(ExprV, int, nat), ParseError>((two, 11, 1)));
    assert(g_atom(s, 13, 255) == Ok::<(ExprV, int, nat), ParseError>((three, 15, 1)));
    assert(g_product_rest(s, two, 1, 7, 255) == Ok::<(ExprV, int, nat), ParseError>((two, 7, 1)));
    assert(g_product(s, 5, 255) == Ok::<(ExprV, int, nat), ParseError>((two, 7, 1)));
    assert(g_product_rest(s, product, 2, 15, 255) == Ok::<(ExprV, int, nat), ParseError>(
        (product, 15, 2),
    ));
    assert(g_join(two, 1, Op::Mult, three, 1, 255, 12) == Ok::<(ExprV, nat), ParseError>(
        (product, 2),
    ));
    assert(g_product_rest(s, two, 1, 11, 255) == Ok::<(ExprV, int, nat), ParseError>(
        (product, 15, 2),
    ));
    assert(g_product(s, 9, 255) == Ok::<(ExprV, int, nat), ParseError>((product, 15, 2)));
    assert(g_join(two, 1, Op::Plus, product, 2, 255, 8) == Ok::<(ExprV, nat), ParseError>(
        (sum, 3),
    ));
    assert(g_sum_rest(s, sum, 3, 15, 255) == Ok::<(ExprV, int, nat), ParseError>((sum, 15, 3)));
    assert(g_sum_rest(s, two, 1, 7, 255) == Ok::<(ExprV, int, nat), ParseError>((sum, 15, 3)));
    assert(g_sum(s, 5, 255) == Ok::<(ExprV, int, nat), ParseError>((sum, 15, 3)));
    assert(comparison_of(s, 15) is None);
    assert(g_expr(s, 5, 255) == Ok::<(ExprV, int, nat), ParseError>((sum, 15, 3)));
    assert(semi_end(s, 15) == 16);
    let st = StmtV::Print(Box::new(sum));
    assert(g_stmt(s, 0, 256) == Ok::<(StmtV, int, nat), ParseError>((st, 16, 4)));
    assert(g_program_rest(s, seq![st], 16) == Ok::<Seq<StmtV>, ParseError>(seq![st]));
    assert(Seq::<StmtV>::empty().push(st) =~= seq![st]);
}


/// `print 8 - 2 - 3;` spells the print of `(8 - 2) - 3`: operators of equal
/// precedence group from the left.
pub proof fn law_sums_group_left()
    ensures
        ({
            let eight = ExprV::Num(double_bits(8) as u64);
            let two = ExprV::Num(double_bits(2) as u64);
            let three = ExprV::Num(double_bits(3) as u64);
            let first = ExprV::Binary(Box::new(eight), Op::Minus, Box::new(two));
            derives(
                "print 8 - 2 - 3;"@,
                seq![StmtV::Print(Box::new(ExprV::Binary(Box::new(first), Op::Minus, Box::new(three))))],
            )
        }),
{
    reveal_strlit("print 8 - 2 - 3;");
    reveal_strlit("if");
    reveal_strlit("print");
    reveal_with_fuel(word_count, 7);
    reveal_with_fuel(ws_count, 3);
    reveal_with_fuel(scan_digits, 3);
    reveal_with_fuel(g_program_rest, 2);
    let s = "print 8 - 2 - 3;"@;
    let eight = ExprV::Num(double_bits(8) as u64);
    let two = ExprV::Num(double_bits(2) as u64);
    let three = ExprV::Num(double_bits(3) as u64);
    let first = ExprV::Binary(Box::new(eight), Op::Minus, Box::new(two));
    let whole = ExprV::Binary(Box::new(first), Op::Minus, Box::new(three));
    assert(s.len() == 16);
    assert(ws_end(s, 0) == 0);
    assert(word_count(s, 0) == 5);
    assert(s.subrange(0, 5) =~= "print"@);
    assert(s.subrange(0, 5) != "if"@);
    assert(ws_end(s, 5) == 6);
    assert(ws_end(s, 7) == 8);
    assert(ws_end(s, 9) == 10);
    assert(ws_end(s, 11) == 12);
    assert(ws_end(s, 13) == 14);
    assert(ws_end(s, 15) == 15);
    assert(digit_of(s[6]) == Some(8nat));
    assert(digit_of(s[10]) == Some(2nat));
    assert(digit_of(s[14]) == Some(3nat));
    assert(digit_of(s[7]) is None);
    assert(digit_of(s[11]) is None);
    assert(digit_of(s[15]) is None);
    assert(scan_digits(s, 6, 0) == Ok::<(nat, int), ()>((8nat, 7int)));
    assert(scan_digits(s, 10, 0) == Ok::<(nat, int), ()>((2nat, 11int)));
    assert(scan_digits(s, 14, 0) == Ok::<(nat, int), ()>((3nat, 15int)));
    assert(g_atom(s, 5, 255) == Ok::<(ExprV, int, nat), ParseError>((eight, 7, 1)));
    assert(g_atom(s, 9, 255) == Ok::<(ExprV, int, nat), ParseError>((two, 11, 1)));
    assert(g_atom(s, 13, 255) == Ok::<(ExprV, int, nat), ParseError>((three, 15, 1)));
    assert(g_product_rest(s, eight, 1, 7, 255) == Ok::<(ExprV, int, nat), ParseError>(
        (eight, 7, 1),
    ));
    assert(g_product(s, 5, 255) == Ok::<(ExprV, int, nat), ParseError>((eight, 7, 1)));
    assert(g_product_rest(s, two, 1, 11, 255) == Ok::<(ExprV, int, nat), ParseError>(
        (two, 11, 1),
    ));
    assert(g_product(s, 9, 255) == Ok::<(ExprV, int, nat), ParseError>((two, 11, 1)));
    assert(g_product_rest(s, three, 1, 15, 255) == Ok::<(ExprV, int, nat), ParseError>(
        (three, 15, 1),
    ));
    assert(g_product(s, 13, 255) == Ok::<(ExprV, int, nat), ParseError>((three, 15, 1)));
    assert(g_join(eight, 1, Op::Minus, two, 1, 255, 8) == Ok::<(ExprV, nat), ParseError>(
        (first, 2),
    ));
    assert(g_join(first, 2, Op::Minus, three, 1, 255, 12) == Ok::<(ExprV, nat), ParseError>(
        (whole, 3),
    ));
    assert(g_sum_rest(s, whole, 3, 15, 255) == Ok::<(ExprV, int, nat), ParseError>(
        (whole, 15, 3),
    ));
    assert(g_sum_rest(s, first, 2, 11, 255) == Ok::<(ExprV, int, nat), ParseError>(
        (whole, 15, 3),
    ));
    assert(g_sum_rest(s, eight, 1, 7, 255) == Ok::<(ExprV, int, nat), ParseError>(
        (whole, 15, 3),
    ));
    assert(g_sum(s, 5, 255) == Ok::<(ExprV, int, nat), ParseError>((whole, 15, 3)));
    assert(comparison_of(s, 15) is None);
    assert(g_expr(s, 5, 255) == Ok::<(ExprV, int, nat), ParseError>((whole, 15, 3)));
    assert(semi_end(s, 15) == 16);
    let st = StmtV::Print(Box::new(whole));
    assert(g_stmt(s, 0, 256) == Ok::<(StmtV, int, nat), ParseError>((st, 16, 4)));
    assert(g_program_rest(s, seq![st], 16) == Ok::<Seq<StmtV>, ParseError>(seq![st]));
    assert(Seq::<StmtV>::empty().push(st) =~= seq![st]);
}

/// `print ;` is rejected: an expression cannot start at the `;`.
pub proof fn law_print_without_value_rejected()
    ensures
        g_program("print ;"@) == Err::<Seq<StmtV>, ParseError>(ParseError::Unexpected(6)),
{
    reveal_strlit("print ;");
    reveal_strlit("if");
    reveal_strlit("print");
    reveal_with_fuel(word_count, 7);
    reveal_with_fuel(ws_count, 3);
    let s = "print ;"@;
    assert(s.len() == 7);
    assert(ws_end(s, 0) == 0);
    assert(word_count(s, 0) == 5);
    assert(s.subrange(0, 5) =~= "print"@);
    assert(s.subrange(0, 5) != "if"@);
    assert(ws_end(s, 5) == 6);
    assert(digit_of(s[6]) is None);
    assert(g_atom(s, 5, 255) == Err::<(ExprV, int, nat), ParseError>(ParseError::Unexpected(6)));
    assert(g_expr(s, 5, 255) == Err::<(ExprV, int, nat), ParseError>(ParseError::Unexpected(6)));
    assert(g_stmt(s, 0, 256) == Err::<(StmtV, int, nat), ParseError>(ParseError::Unexpected(6)));
}

} // verus!
