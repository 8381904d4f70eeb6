//! The grammar of scripts, and the parser that reads a script by it.
//!
//! The grammar is written down as functions on the characters of a script:
//! each takes a position and gives what stands there and the position after
//! it. The parser computes the same functions.

use crate::ast::{
    block_view, fields_view, object_literal_view, stmts_view, BinaryOpcode, Expr, ExprView, Stmt,
    StmtView,
};
use crate::error::CompileError;
use crate::text::{chars_of, is_digit, number_of, read_number};
use vstd::prelude::*;

verus! {

/// The kinds of characters that the grammar reads in runs.
#[derive(Clone, Copy, Debug, PartialEq, Eq, Structural)]
pub enum Run {
    /// Blanks, tabs and line ends.
    Spaces,
    /// Letters, digits and the underscore.
    Word,
    /// Decimal digits.
    Digits,
    /// Anything but the double quote that ends a string.
    Quoted,
    /// Anything but the `>` that ends a path.
    Angled,
    /// Anything but the `]` that ends the path of a `set`.
    Bracketed,
}

/// Whether a word can start with `c`: a letter or the underscore.
pub open spec fn is_word_start(c: char) -> bool {
    ('a' <= c <= 'z') || ('A' <= c <= 'Z') || c == '_'
}

/// Whether `c` belongs to a run of the kind `kind`.
pub open spec fn in_run(kind: Run, c: char) -> bool {
    match kind {
        Run::Spaces => c == ' ' || c == '\t' || c == '\n' || c == '\r',
        Run::Word => is_word_start(c) || is_digit(c),
        Run::Digits => is_digit(c),
        Run::Quoted => c != '"',
        Run::Angled => c != '>',
        Run::Bracketed => c != ']',
    }
}

/// Where the run of characters of the kind `kind` that starts at `pos` ends.
pub open spec fn run_end(src: Seq<char>, pos: nat, kind: Run) -> nat
    decreases src.len() - pos,
{
    if pos < src.len() && in_run(kind, src[pos as int]) {
        run_end(src, pos + 1, kind)
    } else {
        pos
    }
}

/// A run ends at or after its start and within the text.
pub proof fn run_end_bounds(src: Seq<char>, pos: nat, kind: Run)
    requires
        pos <= src.len(),
    ensures
        pos <= run_end(src, pos, kind) <= src.len(),
    decreases src.len() - pos,
{
    if pos < src.len() && in_run(kind, src[pos as int]) {
        run_end_bounds(src, pos + 1, kind);
    }
}

/// Whether the position `p` lies after `pos` and within the text.
pub open spec fn ahead(src: Seq<char>, pos: nat, p: nat) -> bool {
    pos < p <= src.len()
}

/// Whether `word` is one that the grammar keeps for itself.
pub open spec fn is_reserved(word: Seq<char>) -> bool {
    ||| word == "let"@
    ||| word == "set"@
    ||| word == "print"@
    ||| word == "when"@
    ||| word == "wait"@
    ||| word == "at"@
    ||| word == "scene"@
    ||| word == "start"@
    ||| word == "stop"@
    ||| word == "as"@
    ||| word == "in"@
    ||| word == "is"@
    ||| word == "true"@
    ||| word == "false"@
}

/// The word that stands at `pos`, after spaces, and where it starts and ends.
/// The word is empty where none stands there.
pub open spec fn word_at(src: Seq<char>, pos: nat) -> (Seq<char>, nat, nat) {
    let from = run_end(src, pos, Run::Spaces);
    let to = run_end(src, from, Run::Word);
    if from < src.len() && is_word_start(src[from as int]) {
        (src.subrange(from as int, to as int), from, to)
    } else {
        (Seq::empty(), from, from)
    }
}

/// The name that stands at `pos`, after spaces, and the position after it: a
/// word that is not reserved.
pub open spec fn name_at(src: Seq<char>, pos: nat) -> Option<(Seq<char>, nat)> {
    let (word, _, to) = word_at(src, pos);
    if word.len() > 0 && !is_reserved(word) {
        Some((word, to))
    } else {
        None
    }
}

/// The position after the character `c`, if it stands at `pos`, after
/// spaces.
pub open spec fn symbol_at(src: Seq<char>, pos: nat, c: char) -> Option<nat> {
    let from = run_end(src, pos, Run::Spaces);
    if from < src.len() && src[from as int] == c {
        Some(from + 1)
    } else {
        None
    }
}

/// The text between the position `from` and the character that ends a run of
/// the kind `kind`, and the position after that character.
pub open spec fn enclosed_at(src: Seq<char>, from: nat, kind: Run) -> Option<(Seq<char>, nat)> {
    let to = run_end(src, from, kind);
    if from <= src.len() && to < src.len() {
        Some((src.subrange(from as int, to as int), to + 1))
    } else {
        None
    }
}

/// The literal that starts with the digit at `from`: a span of time (`5s`), a
/// time of day (`10:05PM`), a number with a fraction (`4.2`) or a whole
/// number.
pub open spec fn number_at(src: Seq<char>, from: nat) -> Option<(ExprView, nat)> {
    let to = run_end(src, from, Run::Digits);
    if to <= from || to > src.len() {
        None
    } else if to < src.len() && (src[to as int] == 'h' || src[to as int] == 'm' || src[to as int]
        == 's') {
        if to + 1 < src.len() && in_run(Run::Word, src[(to + 1) as int]) {
            None
        } else {
            Some((ExprView::Duration(src.subrange(from as int, (to + 1) as int)), to + 1))
        }
    } else if to < src.len() && src[to as int] == ':' {
        let end = run_end(src, to + 1, Run::Digits);
        if end > to + 1 && end + 2 <= src.len() && (src[end as int] == 'A' || src[end as int]
            == 'P') && src[(end + 1) as int] == 'M' {
            Some((ExprView::Time(src.subrange(from as int, (end + 2) as int)), end + 2))
        } else {
            None
        }
    } else if to + 1 < src.len() && src[to as int] == '.' && is_digit(src[(to + 1) as int]) {
        let end = run_end(src, to + 1, Run::Digits);
        Some((ExprView::Float(src.subrange(from as int, end as int)), end))
    } else {
        match number_of(src.subrange(from as int, to as int), i64::MAX as nat) {
            Some(n) => Some((ExprView::Integer(n as i64), to)),
            None => None,
        }
    }
}

/// The properties of an object literal from `pos` on, after the properties
/// `sofar`, and the position of the brace that ends the literal. Each is a
/// name, a colon and an expression, with commas between them.
pub open spec fn fields_at(src: Seq<char>, pos: nat, sofar: Seq<(Seq<char>, ExprView)>) -> Option<
    (Seq<(Seq<char>, ExprView)>, nat)
>
    decreases src.len() - pos, 0nat,
{
    if pos > src.len() {
        None
    } else if symbol_at(src, pos, '}') is Some {
        Some((sofar, pos))
    } else {
        match name_at(src, pos) {
            None => None,
            Some((key, after1)) => match symbol_at(src, after1, ':') {
                None => None,
                Some(after2) => if !ahead(src, pos, after2) {
                    None
                } else {
                    match expr_at(src, after2) {
                        None => None,
                        Some((value, after3)) => match symbol_at(src, after3, ',') {
                            Some(after4) => if !ahead(src, pos, after4) {
                                None
                            } else {
                                fields_at(src, after4, sofar.push((key, value)))
                            },
                            None => if symbol_at(src, after3, '}') is Some {
                                Some((sofar.push((key, value)), after3))
                            } else {
                                None
                            },
                        },
                    }
                },
            },
        }
    }
}

/// What stands at `pos`, after spaces, that is an expression by itself: a
/// literal, a name, a path between `<` and `>`, an object literal between
/// braces, or an expression between parentheses.
pub open spec fn atom_at(src: Seq<char>, pos: nat) -> Option<(ExprView, nat)>
    decreases src.len() - pos, 1nat,
{
    let from = run_end(src, pos, Run::Spaces);
    if pos > src.len() || from >= src.len() {
        None
    } else if src[from as int] == '"' {
        match enclosed_at(src, from + 1, Run::Quoted) {
            Some((text, to)) => Some((ExprView::String(text), to)),
            None => None,
        }
    } else if src[from as int] == '<' {
        match enclosed_at(src, from + 1, Run::Angled) {
            Some((text, to)) => Some((ExprView::Path(text), to)),
            None => None,
        }
    } else if src[from as int] == '{' {
        if !ahead(src, pos, from + 1) {
            None
        } else {
            match fields_at(src, from + 1, Seq::empty()) {
                None => None,
                Some((fields, after1)) => match symbol_at(src, after1, '}') {
                    Some(after2) => Some((ExprView::Object(fields), after2)),
                    None => None,
                },
            }
        }
    } else if src[from as int] == '(' {
        if !ahead(src, pos, from + 1) {
            None
        } else {
            match expr_at(src, from + 1) {
                None => None,
                Some((inner, after1)) => match symbol_at(src, after1, ')') {
                    Some(after2) => Some((inner, after2)),
                    None => None,
                },
            }
        }
    } else if src[from as int] == '#' {
        let to = run_end(src, from + 1, Run::Word);
        let text = src.subrange(from as int, to as int);
        if text == "#sunrise"@ || text == "#sunset"@ {
            Some((ExprView::Time(text), to))
        } else {
            None
        }
    } else if is_digit(src[from as int]) {
        number_at(src, from)
    } else {
        let (word, _, to) = word_at(src, pos);
        if word == "true"@ {
            Some((ExprView::Boolean(true), to))
        } else if word == "false"@ {
            Some((ExprView::Boolean(false), to))
        } else if word.len() > 0 && !is_reserved(word) {
            Some((ExprView::Ident(word), to))
        } else {
            None
        }
    }
}

/// The operator that stands at `pos`, after spaces, among those that bind as
/// tightly as `level` says, and the position after it. Level 0 is `is`, level
/// 1 is `+` and `-`, level 2 is `*` and `/`.
pub open spec fn operator_at(src: Seq<char>, pos: nat, level: nat) -> Option<(BinaryOpcode, nat)> {
    if level == 0 {
        let (word, _, to) = word_at(src, pos);
        if word == "is"@ {
            Some((BinaryOpcode::Eql, to))
        } else {
            None
        }
    } else if level == 1 {
        match (symbol_at(src, pos, '+'), symbol_at(src, pos, '-')) {
            (Some(to), _) => Some((BinaryOpcode::Add, to)),
            (_, Some(to)) => Some((BinaryOpcode::Sub, to)),
            _ => None,
        }
    } else {
        match (symbol_at(src, pos, '*'), symbol_at(src, pos, '/')) {
            (Some(to), _) => Some((BinaryOpcode::Mul, to)),
            (_, Some(to)) => Some((BinaryOpcode::Div, to)),
            _ => None,
        }
    }
}

/// What follows an expression `left` that ends at `pos`, at the level
/// `level`: the properties that are taken of it with a dot at level 3, or the
/// operators of the level and their right operands, which group to the left.
pub open spec fn tail_at(src: Seq<char>, pos: nat, level: nat, left: ExprView) -> Option<
    (ExprView, nat)
>
    decreases src.len() - pos, 0nat,
{
    if pos > src.len() {
        None
    } else if level >= 3 {
        match symbol_at(src, pos, '.') {
            None => Some((left, pos)),
            Some(after1) => match name_at(src, after1) {
                None => None,
                Some((prop, after2)) => if !ahead(src, pos, after2) {
                    None
                } else {
                    tail_at(src, after2, level, ExprView::Index(Box::new(left), prop))
                },
            },
        }
    } else {
        match operator_at(src, pos, level) {
            None => Some((left, pos)),
            Some((op, after1)) => if !ahead(src, pos, after1) {
                None
            } else {
                match operand_at(src, after1, level + 1) {
                    None => None,
                    Some((right, after2)) => if !ahead(src, pos, after2) {
                        None
                    } else {
                        tail_at(
                            src,
                            after2,
                            level,
                            ExprView::Binary(Box::new(left), op, Box::new(right)),
                        )
                    },
                }
            },
        }
    }
}

/// The expression at `pos` whose operators bind at least as tightly as
/// `level` says.
pub open spec fn operand_at(src: Seq<char>, pos: nat, level: nat) -> Option<(ExprView, nat)>
    decreases src.len() - pos, 2 + (3 - level),
{
    if pos > src.len() || level > 3 {
        None
    } else if level == 3 {
        match atom_at(src, pos) {
            None => None,
            Some((left, after1)) => if !ahead(src, pos, after1) {
                None
            } else {
                tail_at(src, after1, level, left)
            },
        }
    } else {
        match operand_at(src, pos, level + 1) {
            None => None,
            Some((left, after1)) => if !ahead(src, pos, after1) {
                None
            } else {
                tail_at(src, after1, level, left)
            },
        }
    }
}

/// The expression at `pos`: an operand, or `init as name in cont`, where
/// `cont` reaches as far as it can.
pub open spec fn expr_at(src: Seq<char>, pos: nat) -> Option<(ExprView, nat)>
    decreases src.len() - pos, 7nat,
{
    if pos > src.len() {
        None
    } else {
        match operand_at(src, pos, 0) {
            None => None,
            Some((init, after1)) => if word_at(src, after1).0 == "as"@ {
                match name_at(src, word_at(src, after1).2) {
                    None => None,
                    Some((name, after2)) => if word_at(src, after2).0 == "in"@ && ahead(
                        src,
                        pos,
                        word_at(src, after2).2,
                    ) {
                        match expr_at(src, word_at(src, after2).2) {
                            None => None,
                            Some((cont, after3)) => Some(
                                (ExprView::As(Box::new(init), name, Box::new(cont)), after3),
                            ),
                        }
                    } else {
                        None
                    },
                }
            } else {
                Some((init, after1))
            },
        }
    }
}

/// The statements from `pos` on, after the statements `sofar`, each with a
/// semicolon after it, and the position at which no statement follows.
pub open spec fn stmts_at(src: Seq<char>, pos: nat, sofar: Seq<StmtView>) -> Option<
    (Seq<StmtView>, nat)
>
    decreases src.len() - pos, 9nat,
{
    let from = run_end(src, pos, Run::Spaces);
    if pos > src.len() {
        None
    } else if from >= src.len() || src[from as int] == '}' {
        Some((sofar, pos))
    } else {
        match stmt_at(src, pos) {
            None => None,
            Some((s, after1)) => match symbol_at(src, after1, ';') {
                None => None,
                Some(after2) => if !ahead(src, pos, after2) {
                    None
                } else {
                    stmts_at(src, after2, sofar.push(s))
                },
            },
        }
    }
}

/// A statement that is a keyword, an expression and a statement.
pub open spec fn guarded(word: Seq<char>, e: ExprView, body: StmtView) -> StmtView {
    if word == "when"@ {
        StmtView::When(e, Box::new(body))
    } else if word == "wait"@ {
        StmtView::Wait(e, Box::new(body))
    } else {
        StmtView::At(e, Box::new(body))
    }
}

/// The statement at `pos`, without the semicolon that follows it.
pub open spec fn stmt_at(src: Seq<char>, pos: nat) -> Option<(StmtView, nat)>
    decreases src.len() - pos, 8nat,
{
    let (word, from, to) = word_at(src, pos);
    if pos > src.len() {
        None
    } else if symbol_at(src, pos, '{') is Some {
        let after0 = symbol_at(src, pos, '{')->0;
        if !ahead(src, pos, after0) {
            None
        } else {
            match stmts_at(src, after0, Seq::empty()) {
                None => None,
                Some((stmts, after1)) => match symbol_at(src, after1, '}') {
                    Some(after2) => Some((StmtView::Block(stmts), after2)),
                    None => None,
                },
            }
        }
    } else if word == "let"@ {
        match name_at(src, to) {
            None => None,
            Some((name, after1)) => match symbol_at(src, after1, '=') {
                None => None,
                Some(after2) => if !ahead(src, pos, after2) {
                    None
                } else {
                    match expr_at(src, after2) {
                        Some((e, after3)) => Some((StmtView::Let(name, e), after3)),
                        None => None,
                    }
                },
            },
        }
    } else if word == "set"@ {
        match symbol_at(src, to, '[') {
            None => None,
            Some(after1) => match enclosed_at(src, after1, Run::Bracketed) {
                None => None,
                Some((path, after2)) => if !ahead(src, pos, after2) {
                    None
                } else {
                    match expr_at(src, after2) {
                        Some((e, after3)) => Some((StmtView::Publish(path, e), after3)),
                        None => None,
                    }
                },
            },
        }
    } else if word == "print"@ {
        if !ahead(src, pos, to) {
            None
        } else {
            match expr_at(src, to) {
                Some((e, after1)) => Some((StmtView::Print(e), after1)),
                None => None,
            }
        }
    } else if word == "when"@ || word == "wait"@ || word == "at"@ {
        match (if ahead(src, pos, to) {
            expr_at(src, to)
        } else {
            None
        }) {
            None => None,
            Some((e, after1)) => if !ahead(src, pos, after1) {
                None
            } else {
                match stmt_at(src, after1) {
                    Some((body, after2)) => Some((guarded(word, e, body), after2)),
                    None => None,
                }
            },
        }
    } else if word == "scene"@ {
        match name_at(src, to) {
            None => None,
            Some((name, after1)) => if !ahead(src, pos, after1) {
                None
            } else {
                match stmt_at(src, after1) {
                    Some((body, after2)) => Some((StmtView::Scene(name, Box::new(body)), after2)),
                    None => None,
                }
            },
        }
    } else if word == "start"@ {
        match name_at(src, to) {
            Some((name, after1)) => Some((StmtView::Start(name), after1)),
            None => None,
        }
    } else if word == "stop"@ {
        match name_at(src, to) {
            Some((name, after1)) => Some((StmtView::Stop(name), after1)),
            None => None,
        }
    } else {
        match expr_at(src, pos) {
            Some((e, after1)) => Some((StmtView::Expr(e), after1)),
            None => None,
        }
    }
}

/// The script that a text spells: its statements, each with a semicolon
/// after it, up to the end of the text, as one block. A text that the grammar
/// does not admit spells none.
pub open spec fn script(src: Seq<char>) -> Option<StmtView> {
    match stmts_at(src, 0, Seq::empty()) {
        Some((stmts, pos)) => if run_end(src, pos, Run::Spaces) >= src.len() {
            Some(StmtView::Block(stmts))
        } else {
            None
        },
        None => None,
    }
}

/// Whether `c` belongs to a run of the kind `kind`.
fn char_in_run(kind: Run, c: char) -> (r: bool)
    ensures
        r == in_run(kind, c),
{
    match kind {
        Run::Spaces => c == ' ' || c == '\t' || c == '\n' || c == '\r',
        Run::Word => (c >= 'a' && c <= 'z') || (c >= 'A' && c <= 'Z') || c == '_' || (c >= '0'
            && c <= '9'),
        Run::Digits => c >= '0' && c <= '9',
        Run::Quoted => c != '"',
        Run::Angled => c != '>',
        Run::Bracketed => c != ']',
    }
}

/// Whether a word can start with `c`.
fn char_starts_word(c: char) -> (r: bool)
    ensures
        r == is_word_start(c),
{
    (c >= 'a' && c <= 'z') || (c >= 'A' && c <= 'Z') || c == '_'
}

/// Where the run of characters of the kind `kind` that starts at `pos` ends.
fn run(src: &[char], pos: usize, kind: Run) -> (r: usize)
    requires
        pos <= src.len(),
    ensures
        r == run_end(src@, pos as nat, kind),
        pos <= r <= src.len(),
{
    let mut at = pos;
    while at < src.len() && char_in_run(kind, src[at])
        invariant
            pos <= at <= src.len(),
            run_end(src@, pos as nat, kind) == run_end(src@, at as nat, kind),
        decreases src.len() - at,
    {
        at += 1;
    }
    at
}

/// The text of the characters from `from` to `to`.
fn text_of(src: &[char], from: usize, to: usize) -> (r: String)
    requires
        from <= to <= src.len(),
    ensures
        r@ == src@.subrange(from as int, to as int),
{
    let mut out = String::new();
    let mut at = from;
    while at < to
        invariant
            from <= at <= to <= src.len(),
            out@ == src@.subrange(from as int, at as int),
        decreases to - at,
    {
        out.push(src[at]);
        assert(src@.subrange(from as int, at + 1) =~= src@.subrange(from as int, at as int).push(
            src@[at as int],
        ));
        at += 1;
    }
    out
}

/// Whether the characters from `from` to `to` spell `word`.
fn spells(src: &[char], from: usize, to: usize, word: &str) -> (r: bool)
    requires
        from <= to <= src.len(),
    ensures
        r == (src@.subrange(from as int, to as int) == word@),
{
    let letters = chars_of(word);
    let ghost part = src@.subrange(from as int, to as int);
    if letters.len() != to - from {
        return false;
    }
    let mut i: usize = 0;
    while i < letters.len()
        invariant
            from <= to <= src.len(),
            letters.len() == to - from,
            letters@ == word@,
            part == src@.subrange(from as int, to as int),
            i <= letters.len(),
            forall|j: int| 0 <= j < i ==> part[j] == letters@[j],
        decreases letters.len() - i,
    {
        if src[from + i] != letters[i] {
            assert(part[i as int] != letters@[i as int]);
            return false;
        }
        i += 1;
    }
    assert(part =~= letters@);
    true
}

/// Whether the characters from `from` to `to` spell a reserved word.
fn reserved(src: &[char], from: usize, to: usize) -> (r: bool)
    requires
        from <= to <= src.len(),
    ensures
        r == is_reserved(src@.subrange(from as int, to as int)),
{
    spells(src, from, to, "let") || spells(src, from, to, "set") || spells(src, from, to, "print")
        || spells(src, from, to, "when") || spells(src, from, to, "wait") || spells(
        src,
        from,
        to,
        "at",
    ) || spells(src, from, to, "scene") || spells(src, from, to, "start") || spells(
        src,
        from,
        to,
        "stop",
    ) || spells(src, from, to, "as") || spells(src, from, to, "in") || spells(src, from, to, "is")
        || spells(src, from, to, "true") || spells(src, from, to, "false")
}

/// Where the word that stands at `pos`, after spaces, starts and ends.
fn word(src: &[char], pos: usize) -> (r: (usize, usize))
    requires
        pos <= src.len(),
    ensures
        pos <= r.0 <= r.1 <= src.len(),
        word_at(src@, pos as nat) == (
            src@.subrange(r.0 as int, r.1 as int),
            r.0 as nat,
            r.1 as nat,
        ),
{
    let from = run(src, pos, Run::Spaces);
    if from < src.len() && char_starts_word(src[from]) {
        let to = run(src, from, Run::Word);
        (from, to)
    } else {
        assert(src@.subrange(from as int, from as int) =~= Seq::empty());
        (from, from)
    }
}

/// The name that stands at `pos`, after spaces, and the position after it.
fn name(src: &[char], pos: usize) -> (r: Option<(String, usize)>)
    requires
        pos <= src.len(),
    ensures
        match name_at(src@, pos as nat) {
            Some((text, to)) => r matches Some((t, p)) && t@ == text && p == to && pos <= p
                <= src.len(),
            None => r is None,
        },
{
    let (from, to) = word(src, pos);
    if to > from && !reserved(src, from, to) {
        Some((text_of(src, from, to), to))
    } else {
        None
    }
}

/// The position after the character `c`, if it stands at `pos`, after
/// spaces.
fn symbol(src: &[char], pos: usize, c: char) -> (r: Option<usize>)
    requires
        pos <= src.len(),
    ensures
        r matches Some(p) ==> symbol_at(src@, pos as nat, c) == Some(p as nat) && pos < p
            <= src.len(),
        r is None ==> symbol_at(src@, pos as nat, c) is None,
{
    let from = run(src, pos, Run::Spaces);
    if from < src.len() && src[from] == c {
        Some(from + 1)
    } else {
        None
    }
}

/// The text from `from` to the character that ends a run of the kind `kind`,
/// and the position after that character.
fn enclosed(src: &[char], from: usize, kind: Run) -> (r: Option<(String, usize)>)
    requires
        from <= src.len(),
    ensures
        match enclosed_at(src@, from as nat, kind) {
            Some((text, to)) => r matches Some((t, p)) && t@ == text && p == to && from < p
                <= src.len(),
            None => r is None,
        },
{
    let to = run(src, from, kind);
    if to < src.len() {
        Some((text_of(src, from, to), to + 1))
    } else {
        None
    }
}

/// The literal that starts with the digit at `from`.
fn number(src: &[char], from: usize) -> (r: Option<(Expr, usize)>)
    requires
        from <= src.len(),
    ensures
        match number_at(src@, from as nat) {
            Some((e, to)) => r matches Some((x, p)) && x@ == e && p == to && from < p <= src.len(),
            None => r is None,
        },
{
    let to = run(src, from, Run::Digits);
    if to <= from {
        return None;
    }
    if to < src.len() && (src[to] == 'h' || src[to] == 'm' || src[to] == 's') {
        if src.len() - to > 1 && char_in_run(Run::Word, src[to + 1]) {
            None
        } else {
            Some((Expr::Duration(text_of(src, from, to + 1)), to + 1))
        }
    } else if to < src.len() && src[to] == ':' {
        let end = run(src, to + 1, Run::Digits);
        if end > to + 1 && src.len() - end >= 2 && (src[end] == 'A' || src[end] == 'P') && src[end
            + 1] == 'M' {
            Some((Expr::Time(text_of(src, from, end + 2)), end + 2))
        } else {
            None
        }
    } else if src.len() - to > 1 && src[to] == '.' && char_in_run(Run::Digits, src[to + 1]) {
        let end = run(src, to + 1, Run::Digits);
        Some((Expr::Float(text_of(src, from, end)), end))
    } else {
        match read_number(src, from, to, i64::MAX as u64) {
            Some(n) => Some((Expr::Integer(n as i64), to)),
            None => None,
        }
    }
}

/// The operator that stands at `pos`, after spaces, among those of the level
/// `level`.
fn operator(src: &[char], pos: usize, level: u8) -> (r: Option<(BinaryOpcode, usize)>)
    requires
        pos <= src.len(),
    ensures
        match operator_at(src@, pos as nat, level as nat) {
            Some((op, to)) => r == Some((op, to as usize)) && pos <= to <= src.len(),
            None => r is None,
        },
{
    if level == 0 {
        let (from, to) = word(src, pos);
        if spells(src, from, to, "is") {
            Some((BinaryOpcode::Eql, to))
        } else {
            None
        }
    } else if level == 1 {
        match symbol(src, pos, '+') {
            Some(to) => Some((BinaryOpcode::Add, to)),
            None => match symbol(src, pos, '-') {
                Some(to) => Some((BinaryOpcode::Sub, to)),
                None => None,
            },
        }
    } else {
        match symbol(src, pos, '*') {
            Some(to) => Some((BinaryOpcode::Mul, to)),
            None => match symbol(src, pos, '/') {
                Some(to) => Some((BinaryOpcode::Div, to)),
                None => None,
            },
        }
    }
}

/// Whether what parsing gave is what the grammar gives.
pub open spec fn reads_expr(r: Option<(Expr, usize)>, like: Option<(ExprView, nat)>, len: nat) -> bool {
    match like {
        Some((e, to)) => r matches Some((x, p)) && x@ == e && p == to && p <= len,
        None => r is None,
    }
}

/// Whether what parsing gave is what the grammar gives.
pub open spec fn reads_stmt(r: Option<(Stmt, usize)>, like: Option<(StmtView, nat)>, len: nat) -> bool {
    match like {
        Some((s, to)) => r matches Some((x, p)) && x@ == s && p == to && p <= len,
        None => r is None,
    }
}

/// The properties of an object literal from `pos` on, after the properties
/// `sofar`.
fn fields(src: &[char], pos: usize, sofar: Vec<(String, Expr)>) -> (r: Option<
    (Vec<(String, Expr)>, usize),
>)
    requires
        pos <= src.len(),
    ensures
        match fields_at(src@, pos as nat, fields_view(sofar@)) {
            Some((all, to)) => r matches Some((f, p)) && fields_view(f@) == all && p == to && p
                <= src.len(),
            None => r is None,
        },
    decreases src.len() - pos, 0nat,
{
    let mut sofar = sofar;
    let ghost before = fields_view(sofar@);
    if symbol(src, pos, '}').is_some() {
        return Some((sofar, pos));
    }
    let (key, after1) = match name(src, pos) {
        None => {
            return None;
        },
        Some(found) => found,
    };
    let after2 = match symbol(src, after1, ':') {
        None => {
            return None;
        },
        Some(after2) => after2,
    };
    if after2 <= pos {
        return None;
    }
    let (value, after3) = match expr(src, after2) {
        None => {
            return None;
        },
        Some(found) => found,
    };
    let ghost pair = (key@, value@);
    sofar.push((key, value));
    assert(fields_view(sofar@) =~= before.push(pair));
    match symbol(src, after3, ',') {
        Some(after4) => {
            if after4 <= pos {
                None
            } else {
                fields(src, after4, sofar)
            }
        },
        None => {
            if symbol(src, after3, '}').is_some() {
                Some((sofar, after3))
            } else {
                None
            }
        },
    }
}

/// What stands at `pos`, after spaces, that is an expression by itself.
fn atom(src: &[char], pos: usize) -> (r: Option<(Expr, usize)>)
    requires
        pos <= src.len(),
    ensures
        reads_expr(r, atom_at(src@, pos as nat), src@.len()),
    decreases src.len() - pos, 1nat,
{
    let from = run(src, pos, Run::Spaces);
    if from >= src.len() {
        return None;
    }
    let c = src[from];
    if c == '"' {
        match enclosed(src, from + 1, Run::Quoted) {
            Some((text, to)) => Some((Expr::String(text), to)),
            None => None,
        }
    } else if c == '<' {
        match enclosed(src, from + 1, Run::Angled) {
            Some((text, to)) => Some((Expr::Path(text), to)),
            None => None,
        }
    } else if c == '{' {
        let empty: Vec<(String, Expr)> = Vec::new();
        assert(fields_view(empty@) =~= Seq::empty());
        match fields(src, from + 1, empty) {
            None => None,
            Some((all, after1)) => match symbol(src, after1, '}') {
                Some(after2) => {
                    proof {
                        object_literal_view(all);
                    }
                    Some((Expr::Object(all), after2))
                },
                None => None,
            },
        }
    } else if c == '(' {
        match expr(src, from + 1) {
            None => None,
            Some((inner, after1)) => match symbol(src, after1, ')') {
                Some(after2) => Some((inner, after2)),
                None => None,
            },
        }
    } else if c == '#' {
        let to = run(src, from + 1, Run::Word);
        if spells(src, from, to, "#sunrise") || spells(src, from, to, "#sunset") {
            Some((Expr::Time(text_of(src, from, to)), to))
        } else {
            None
        }
    } else if c >= '0' && c <= '9' {
        number(src, from)
    } else {
        let (start, to) = word(src, pos);
        if spells(src, start, to, "true") {
            Some((Expr::Boolean(true), to))
        } else if spells(src, start, to, "false") {
            Some((Expr::Boolean(false), to))
        } else if to > start && !reserved(src, start, to) {
            Some((Expr::Ident(text_of(src, start, to)), to))
        } else {
            None
        }
    }
}

/// What follows an expression `left` that ends at `pos`, at the level
/// `level`.
fn tail(src: &[char], pos: usize, level: u8, left: Expr) -> (r: Option<(Expr, usize)>)
    requires
        pos <= src.len(),
        level <= 3,
    ensures
        reads_expr(r, tail_at(src@, pos as nat, level as nat, left@), src@.len()),
    decreases src.len() - pos, 0nat,
{
    if level >= 3 {
        match symbol(src, pos, '.') {
            None => Some((left, pos)),
            Some(after1) => match name(src, after1) {
                None => None,
                Some((prop, after2)) => {
                    if after2 <= pos {
                        None
                    } else {
                        tail(src, after2, level, Expr::Index(Box::new(left), prop))
                    }
                },
            },
        }
    } else {
        match operator(src, pos, level) {
            None => Some((left, pos)),
            Some((op, after1)) => {
                if after1 <= pos {
                    None
                } else {
                    match operand(src, after1, level + 1) {
                        None => None,
                        Some((right, after2)) => {
                            if after2 <= pos {
                                None
                            } else {
                                tail(
                                    src,
                                    after2,
                                    level,
                                    Expr::Binary(Box::new(left), op, Box::new(right)),
                                )
                            }
                        },
                    }
                }
            },
        }
    }
}

/// The expression at `pos` whose operators bind at least as tightly as
/// `level` says.
fn operand(src: &[char], pos: usize, level: u8) -> (r: Option<(Expr, usize)>)
    requires
        pos <= src.len(),
        level <= 3,
    ensures
        reads_expr(r, operand_at(src@, pos as nat, level as nat), src@.len()),
    decreases src.len() - pos, 2 + (3 - level),
{
    let first = if level == 3 {
        atom(src, pos)
    } else {
        operand(src, pos, level + 1)
    };
    match first {
        None => None,
        Some((left, after1)) => {
            if after1 <= pos {
                None
            } else {
                tail(src, after1, level, left)
            }
        },
    }
}

/// The expression at `pos`.
fn expr(src: &[char], pos: usize) -> (r: Option<(Expr, usize)>)
    requires
        pos <= src.len(),
    ensures
        reads_expr(r, expr_at(src@, pos as nat), src@.len()),
    decreases src.len() - pos, 7nat,
{
    match operand(src, pos, 0) {
        None => None,
        Some((init, after1)) => {
            let (from, to) = word(src, after1);
            if spells(src, from, to, "as") {
                match name(src, to) {
                    None => None,
                    Some((id, after2)) => {
                        let (start, end) = word(src, after2);
                        if spells(src, start, end, "in") && end > pos {
                            match expr(src, end) {
                                None => None,
                                Some((cont, after3)) => Some(
                                    (Expr::As(Box::new(init), id, Box::new(cont)), after3),
                                ),
                            }
                        } else {
                            None
                        }
                    },
                }
            } else {
                Some((init, after1))
            }
        },
    }
}

/// The statements from `pos` on, after the statements `sofar`.
fn stmts(src: &[char], pos: usize, sofar: Vec<Stmt>) -> (r: Option<(Vec<Stmt>, usize)>)
    requires
        pos <= src.len(),
    ensures
        match stmts_at(src@, pos as nat, stmts_view(sofar@)) {
            Some((all, to)) => r matches Some((list, p)) && stmts_view(list@) == all && p == to
                && p <= src.len(),
            None => r is None,
        },
    decreases src.len() - pos, 9nat,
{
    let mut sofar = sofar;
    let ghost before = stmts_view(sofar@);
    let from = run(src, pos, Run::Spaces);
    if from >= src.len() || src[from] == '}' {
        return Some((sofar, pos));
    }
    match stmt(src, pos) {
        None => None,
        Some((s, after1)) => match symbol(src, after1, ';') {
            None => None,
            Some(after2) => {
                if after2 <= pos {
                    None
                } else {
                    let ghost view = s@;
                    sofar.push(s);
                    assert(stmts_view(sofar@) =~= before.push(view));
                    stmts(src, after2, sofar)
                }
            },
        },
    }
}

/// The statement at `pos`, without the semicolon that follows it.
fn stmt(src: &[char], pos: usize) -> (r: Option<(Stmt, usize)>)
    requires
        pos <= src.len(),
    ensures
        reads_stmt(r, stmt_at(src@, pos as nat), src@.len()),
    decreases src.len() - pos, 8nat,
{
    let (from, to) = word(src, pos);
    if let Some(after0) = symbol(src, pos, '{') {
        let empty: Vec<Stmt> = Vec::new();
        assert(stmts_view(empty@) =~= Seq::empty());
        return match stmts(src, after0, empty) {
            None => None,
            Some((all, after1)) => match symbol(src, after1, '}') {
                Some(after2) => {
                    proof {
                        block_view(all);
                    }
                    Some((Stmt::Block(all), after2))
                },
                None => None,
            },
        };
    }
    if spells(src, from, to, "let") {
        match name(src, to) {
            None => None,
            Some((id, after1)) => match symbol(src, after1, '=') {
                None => None,
                Some(after2) => {
                    if after2 <= pos {
                        None
                    } else {
                        match expr(src, after2) {
                            Some((e, after3)) => Some((Stmt::Let(id, e), after3)),
                            None => None,
                        }
                    }
                },
            },
        }
    } else if spells(src, from, to, "set") {
        match symbol(src, to, '[') {
            None => None,
            Some(after1) => match enclosed(src, after1, Run::Bracketed) {
                None => None,
                Some((path, after2)) => {
                    if after2 <= pos {
                        None
                    } else {
                        match expr(src, after2) {
                            Some((e, after3)) => Some((Stmt::Publish(path, e), after3)),
                            None => None,
                        }
                    }
                },
            },
        }
    } else if spells(src, from, to, "print") {
        if to <= pos {
            None
        } else {
            match expr(src, to) {
                Some((e, after1)) => Some((Stmt::Print(e), after1)),
                None => None,
            }
        }
    } else if spells(src, from, to, "when") || spells(src, from, to, "wait") || spells(
        src,
        from,
        to,
        "at",
    ) {
        if to <= pos {
            return None;
        }
        match expr(src, to) {
            None => None,
            Some((e, after1)) => {
                if after1 <= pos {
                    None
                } else {
                    match stmt(src, after1) {
                        Some((body, after2)) => {
                            let s = if spells(src, from, to, "when") {
                                Stmt::When(e, Box::new(body))
                            } else if spells(src, from, to, "wait") {
                                Stmt::Wait(e, Box::new(body))
                            } else {
                                Stmt::At(e, Box::new(body))
                            };
                            Some((s, after2))
                        },
                        None => None,
                    }
                }
            },
        }
    } else if spells(src, from, to, "scene") {
        match name(src, to) {
            None => None,
            Some((id, after1)) => {
                if after1 <= pos {
                    None
                } else {
                    match stmt(src, after1) {
                        Some((body, after2)) => Some((Stmt::Scene(id, Box::new(body)), after2)),
                        None => None,
                    }
                }
            },
        }
    } else if spells(src, from, to, "start") {
        match name(src, to) {
            Some((id, after1)) => Some((Stmt::Start(id), after1)),
            None => None,
        }
    } else if spells(src, from, to, "stop") {
        match name(src, to) {
            Some((id, after1)) => Some((Stmt::Stop(id), after1)),
            None => None,
        }
    } else {
        match expr(src, pos) {
            Some((e, after1)) => Some((Stmt::Expr(e), after1)),
            None => None,
        }
    }
}

/// Reads a script.
pub fn parse(source: &str) -> (r: Result<Stmt, CompileError>)
    ensures
        match script(source@) {
            Some(ast) => r matches Ok(s) && s@ == ast,
            None => r matches Err(e) && e == CompileError::Syntax,
        },
{
    let chars = chars_of(source);
    let src = chars.as_slice();
    let empty: Vec<Stmt> = Vec::new();
    assert(stmts_view(empty@) =~= Seq::empty());
    match stmts(src, 0, empty) {
        None => Err(CompileError::Syntax),
        Some((all, pos)) => {
            if run(src, pos, Run::Spaces) >= src.len() {
                proof {
                    block_view(all);
                }
                Ok(Stmt::Block(all))
            } else {
                Err(CompileError::Syntax)
            }
        },
    }
}

} // verus!
