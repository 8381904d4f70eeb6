//! The syntax tree of a script.

use crate::text::{decimal, push_decimal, push_str, string_of};
use vstd::prelude::*;

verus! {

/// An operator between two expressions.
#[derive(Clone, Copy, Debug, PartialEq, Eq, Structural)]
pub enum BinaryOpcode {
    Mul,
    Div,
    Add,
    Sub,
    Eql,
}

/// The mathematical content of an [`Expr`].
pub enum ExprView {
    Boolean(bool),
    Integer(i64),
    Float(Seq<char>),
    Binary(Box<ExprView>, BinaryOpcode, Box<ExprView>),
    Ident(Seq<char>),
    String(Seq<char>),
    Object(Seq<(Seq<char>, ExprView)>),
    Duration(Seq<char>),
    Time(Seq<char>),
    Path(Seq<char>),
    As(Box<ExprView>, Seq<char>, Box<ExprView>),
    Index(Box<ExprView>, Seq<char>),
}

/// An expression.
#[derive(Debug, PartialEq)]
pub enum Expr {
    Boolean(bool),
    Integer(i64),
    /// A number with a fraction, as the script spells it.
    Float(String),
    Binary(Box<Expr>, BinaryOpcode, Box<Expr>),
    Ident(String),
    String(String),
    /// An object literal: keys and what they hold, as written.
    Object(Vec<(String, Expr)>),
    /// A span of time, as the script spells it (`5s`).
    Duration(String),
    /// A time of day, as the script spells it (`10:05PM`).
    Time(String),
    /// The value that a topic receives next.
    Path(String),
    /// `init as name in cont`: the value of `cont`, in which `name` stands for
    /// the value of `init`.
    As(Box<Expr>, String, Box<Expr>),
    /// `obj.prop`: what the object holds under the key.
    Index(Box<Expr>, String),
}

/// The mathematical content of a [`Stmt`].
pub enum StmtView {
    Block(Seq<StmtView>),
    Publish(Seq<char>, ExprView),
    Let(Seq<char>, ExprView),
    When(ExprView, Box<StmtView>),
    Wait(ExprView, Box<StmtView>),
    At(ExprView, Box<StmtView>),
    Expr(ExprView),
    Print(ExprView),
    Scene(Seq<char>, Box<StmtView>),
    Start(Seq<char>),
    Stop(Seq<char>),
}

/// A statement.
#[derive(Debug, PartialEq)]
pub enum Stmt {
    /// Statements in a scope of their own.
    Block(Vec<Stmt>),
    /// `set [path] expr`: send a value to a topic.
    Publish(String, Expr),
    /// `let name = expr`: bind a name for the rest of the scope.
    Let(String, Expr),
    /// `when expr stmt`: whenever the condition holds, run the statement.
    When(Expr, Box<Stmt>),
    /// `wait expr stmt`: run the statement once the span of time has passed.
    Wait(Expr, Box<Stmt>),
    /// `at expr stmt`: run the statement each day at the time.
    At(Expr, Box<Stmt>),
    /// An expression whose value is dropped.
    Expr(Expr),
    Print(Expr),
    /// `scene name stmt`: a statement to start and stop by name.
    Scene(String, Box<Stmt>),
    Start(String),
    Stop(String),
}

/// The mathematical content of `e`.
pub open spec fn expr_view(e: Expr) -> ExprView
    decreases e,
{
    match e {
        Expr::Boolean(b) => ExprView::Boolean(b),
        Expr::Integer(i) => ExprView::Integer(i),
        Expr::Float(s) => ExprView::Float(s@),
        Expr::Binary(l, op, r) => ExprView::Binary(
            Box::new(expr_view(*l)),
            op,
            Box::new(expr_view(*r)),
        ),
        Expr::Ident(s) => ExprView::Ident(s@),
        Expr::String(s) => ExprView::String(s@),
        Expr::Object(props) => ExprView::Object(
            Seq::new(
                props@.len(),
                |i: int|
                    if 0 <= i < props@.len() {
                        (props@[i].0@, expr_view(props@[i].1))
                    } else {
                        (Seq::empty(), ExprView::Boolean(false))
                    },
            ),
        ),
        Expr::Duration(s) => ExprView::Duration(s@),
        Expr::Time(s) => ExprView::Time(s@),
        Expr::Path(s) => ExprView::Path(s@),
        Expr::As(init, name, cont) => ExprView::As(
            Box::new(expr_view(*init)),
            name@,
            Box::new(expr_view(*cont)),
        ),
        Expr::Index(obj, prop) => ExprView::Index(Box::new(expr_view(*obj)), prop@),
    }
}

impl View for Expr {
    type V = ExprView;

    open spec fn view(&self) -> ExprView {
        expr_view(*self)
    }
}

/// The mathematical content of `s`.
pub open spec fn stmt_view(s: Stmt) -> StmtView
    decreases s,
{
    match s {
        Stmt::Block(stmts) => StmtView::Block(
            Seq::new(
                stmts@.len(),
                |i: int|
                    if 0 <= i < stmts@.len() {
                        stmt_view(stmts@[i])
                    } else {
                        StmtView::Block(Seq::empty())
                    },
            ),
        ),
        Stmt::Publish(path, e) => StmtView::Publish(path@, e@),
        Stmt::Let(name, e) => StmtView::Let(name@, e@),
        Stmt::When(e, body) => StmtView::When(e@, Box::new(stmt_view(*body))),
        Stmt::Wait(e, body) => StmtView::Wait(e@, Box::new(stmt_view(*body))),
        Stmt::At(e, body) => StmtView::At(e@, Box::new(stmt_view(*body))),
        Stmt::Expr(e) => StmtView::Expr(e@),
        Stmt::Print(e) => StmtView::Print(e@),
        Stmt::Scene(name, body) => StmtView::Scene(name@, Box::new(stmt_view(*body))),
        Stmt::Start(name) => StmtView::Start(name@),
        Stmt::Stop(name) => StmtView::Stop(name@),
    }
}

impl View for Stmt {
    type V = StmtView;

    open spec fn view(&self) -> StmtView {
        stmt_view(*self)
    }
}

/// The contents of the properties of an object literal.
pub open spec fn fields_view(props: Seq<(String, Expr)>) -> Seq<(Seq<char>, ExprView)> {
    Seq::new(props.len(), |i: int| (props[i].0@, props[i].1@))
}

/// The contents of a list of statements.
pub open spec fn stmts_view(stmts: Seq<Stmt>) -> Seq<StmtView> {
    Seq::new(stmts.len(), |i: int| stmts[i]@)
}

/// The view of an object literal is the view of its properties.
pub proof fn object_literal_view(props: Vec<(String, Expr)>)
    ensures
        Expr::Object(props)@ == ExprView::Object(fields_view(props@)),
{
    reveal_with_fuel(expr_view, 2);
    assert(Expr::Object(props)@->Object_0 =~= fields_view(props@));
}

/// The view of a block is the view of its statements.
pub proof fn block_view(stmts: Vec<Stmt>)
    ensures
        Stmt::Block(stmts)@ == StmtView::Block(stmts_view(stmts@)),
{
    reveal_with_fuel(stmt_view, 2);
    assert(Stmt::Block(stmts)@->Block_0 =~= stmts_view(stmts@));
}

/// The text that the standard library's `Debug` gives for the text `s`:
/// between double quotes, with what cannot stand there as it is escaped.
pub uninterp spec fn quoted_text(s: Seq<char>) -> Seq<char>;

/// Quotes a text with the `Debug` of `str`. The contract names what comes
/// out; it says nothing of how it is escaped.
#[verifier::external_body]
fn quoted(s: &str) -> (r: String)
    ensures
        r@ == quoted_text(s@),
{
    format!("{:?}", s)
}

/// How an operator is written.
pub open spec fn operator_text(op: BinaryOpcode) -> Seq<char> {
    match op {
        BinaryOpcode::Mul => "*"@,
        BinaryOpcode::Div => "/"@,
        BinaryOpcode::Add => "+"@,
        BinaryOpcode::Sub => "-"@,
        BinaryOpcode::Eql => "is"@,
    }
}

/// The text of the first `n` properties of an object literal: each as its
/// key, a colon and its value, with a comma between one and the next.
pub open spec fn fields_text(fields: Seq<(Seq<char>, ExprView)>, n: nat) -> Seq<char>
    decreases fields, n,
{
    if n == 0 || n > fields.len() {
        Seq::empty()
    } else {
        fields_text(fields, (n - 1) as nat) + (if n > 1 {
            ", "@
        } else {
            Seq::empty()
        }) + fields[n - 1].0 + ": "@ + expr_text(fields[n - 1].1)
    }
}

/// How an expression is written out for a reader: as in a script, with every
/// operation between parentheses.
pub open spec fn expr_text(e: ExprView) -> Seq<char>
    decreases e, 0nat,
{
    match e {
        ExprView::Boolean(b) => if b {
            "true"@
        } else {
            "false"@
        },
        ExprView::Integer(i) => decimal(i as int),
        ExprView::Float(s) => s,
        ExprView::Binary(l, op, r) => "("@ + expr_text(*l) + " "@ + operator_text(op) + " "@
            + expr_text(*r) + ")"@,
        ExprView::Ident(s) => s,
        ExprView::String(s) => quoted_text(s),
        ExprView::Object(fields) => "{"@ + fields_text(fields, fields.len()) + "}"@,
        ExprView::Duration(s) => s,
        ExprView::Time(s) => s,
        ExprView::Path(s) => "<"@ + s + ">"@,
        ExprView::As(init, name, cont) => expr_text(*init) + " as "@ + name + " in "@ + expr_text(
            *cont,
        ),
        ExprView::Index(obj, prop) => expr_text(*obj) + "."@ + prop,
    }
}

/// The text of the first `n` statements of a block: each with a semicolon
/// after it, and a blank between one and the next.
pub open spec fn stmts_text(stmts: Seq<StmtView>, n: nat) -> Seq<char>
    decreases stmts, n,
{
    if n == 0 || n > stmts.len() {
        Seq::empty()
    } else {
        stmts_text(stmts, (n - 1) as nat) + (if n > 1 {
            " "@
        } else {
            Seq::empty()
        }) + stmt_text(stmts[n - 1]) + ";"@
    }
}

/// How a statement is written out for a reader. A block stands between
/// square brackets.
pub open spec fn stmt_text(s: StmtView) -> Seq<char>
    decreases s, 0nat,
{
    match s {
        StmtView::Block(stmts) => "["@ + stmts_text(stmts, stmts.len()) + "]"@,
        StmtView::Publish(path, e) => "set "@ + path + " "@ + expr_text(e),
        StmtView::Let(name, e) => "let "@ + name + " = "@ + expr_text(e),
        StmtView::When(e, body) => "when "@ + expr_text(e) + " "@ + stmt_text(*body),
        StmtView::Wait(e, body) => "wait "@ + expr_text(e) + " "@ + stmt_text(*body),
        StmtView::At(e, body) => "at "@ + expr_text(e) + " "@ + stmt_text(*body),
        StmtView::Expr(e) => expr_text(e),
        StmtView::Print(e) => "print "@ + expr_text(e),
        StmtView::Scene(name, body) => "scene "@ + name + " "@ + stmt_text(*body),
        StmtView::Start(name) => "start "@ + name,
        StmtView::Stop(name) => "stop "@ + name,
    }
}

impl BinaryOpcode {
    /// Appends the operator to `out`.
    pub fn write_text(&self, out: &mut Vec<char>)
        ensures
            final(out)@ == old(out)@ + operator_text(*self),
    {
        match self {
            BinaryOpcode::Mul => push_str(out, "*"),
            BinaryOpcode::Div => push_str(out, "/"),
            BinaryOpcode::Add => push_str(out, "+"),
            BinaryOpcode::Sub => push_str(out, "-"),
            BinaryOpcode::Eql => push_str(out, "is"),
        }
    }
}

/// Appends the text of the properties of an object literal to `out`.
fn write_fields(fields: &Vec<(String, Expr)>, out: &mut Vec<char>)
    ensures
        final(out)@ == old(out)@ + fields_text(fields_view(fields@), fields@.len()),
    decreases fields,
{
    let ghost before = out@;
    let ghost view = fields_view(fields@);
    let mut i: usize = 0;
    while i < fields.len()
        invariant
            i <= fields.len(),
            view == fields_view(fields@),
            out@ == before + fields_text(view, i as nat),
        decreases fields.len() - i,
    {
        if i > 0 {
            push_str(out, ", ");
        }
        push_str(out, fields[i].0.as_str());
        push_str(out, ": ");
        proof {
            assert(decreases_to!(*fields => fields[i as int]));
        }
        fields[i].1.write_text(out);
        assert(view[i as int] == (fields@[i as int].0@, fields@[i as int].1@));
        assert(out@ =~= before + fields_text(view, (i + 1) as nat));
        i += 1;
    }
}

impl Expr {
    /// Appends the text of the expression to `out`.
    pub fn write_text(&self, out: &mut Vec<char>)
        ensures
            final(out)@ == old(out)@ + expr_text(self@),
        decreases self,
    {
        let ghost before = out@;
        match self {
            Expr::Boolean(b) => {
                if *b {
                    push_str(out, "true")
                } else {
                    push_str(out, "false")
                }
            },
            Expr::Integer(i) => push_decimal(out, *i),
            Expr::Float(s) => push_str(out, s.as_str()),
            Expr::Binary(l, op, r) => {
                push_str(out, "(");
                l.write_text(out);
                push_str(out, " ");
                op.write_text(out);
                push_str(out, " ");
                r.write_text(out);
                push_str(out, ")");
                assert(out@ =~= before + expr_text(self@));
            },
            Expr::Ident(s) => push_str(out, s.as_str()),
            Expr::String(s) => {
                let text = quoted(s.as_str());
                push_str(out, text.as_str());
            },
            Expr::Object(fields) => {
                proof {
                    object_literal_view(*fields);
                }
                push_str(out, "{");
                write_fields(fields, out);
                push_str(out, "}");
                assert(out@ =~= before + expr_text(self@));
            },
            Expr::Duration(s) => push_str(out, s.as_str()),
            Expr::Time(s) => push_str(out, s.as_str()),
            Expr::Path(s) => {
                push_str(out, "<");
                push_str(out, s.as_str());
                push_str(out, ">");
                assert(out@ =~= before + expr_text(self@));
            },
            Expr::As(init, name, cont) => {
                init.write_text(out);
                push_str(out, " as ");
                push_str(out, name.as_str());
                push_str(out, " in ");
                cont.write_text(out);
                assert(out@ =~= before + expr_text(self@));
            },
            Expr::Index(obj, prop) => {
                obj.write_text(out);
                push_str(out, ".");
                push_str(out, prop.as_str());
                assert(out@ =~= before + expr_text(self@));
            },
        }
    }

    /// The expression written out for a reader.
    pub fn to_text(&self) -> (r: String)
        ensures
            r@ == expr_text(self@),
    {
        let mut out: Vec<char> = Vec::new();
        self.write_text(&mut out);
        assert(out@ =~= expr_text(self@));
        string_of(out.as_slice())
    }
}

/// Appends the text of the statements of a block to `out`.
fn write_stmts(stmts: &Vec<Stmt>, out: &mut Vec<char>)
    ensures
        final(out)@ == old(out)@ + stmts_text(stmts_view(stmts@), stmts@.len()),
    decreases stmts,
{
    let ghost before = out@;
    let ghost view = stmts_view(stmts@);
    let mut i: usize = 0;
    while i < stmts.len()
        invariant
            i <= stmts.len(),
            view == stmts_view(stmts@),
            out@ == before + stmts_text(view, i as nat),
        decreases stmts.len() - i,
    {
        if i > 0 {
            push_str(out, " ");
        }
        proof {
            assert(decreases_to!(*stmts => stmts[i as int]));
        }
        stmts[i].write_text(out);
        push_str(out, ";");
        assert(view[i as int] == stmts@[i as int]@);
        assert(out@ =~= before + stmts_text(view, (i + 1) as nat));
        i += 1;
    }
}

impl Stmt {
    /// Appends the text of the statement to `out`.
    pub fn write_text(&self, out: &mut Vec<char>)
        ensures
            final(out)@ == old(out)@ + stmt_text(self@),
        decreases self,
    {
        let ghost before = out@;
        match self {
            Stmt::Block(stmts) => {
                proof {
                    block_view(*stmts);
                }
                push_str(out, "[");
                write_stmts(stmts, out);
                push_str(out, "]");
                assert(out@ =~= before + stmt_text(self@));
            },
            Stmt::Publish(path, e) => {
                push_str(out, "set ");
                push_str(out, path.as_str());
                push_str(out, " ");
                e.write_text(out);
                assert(out@ =~= before + stmt_text(self@));
            },
            Stmt::Let(name, e) => {
                push_str(out, "let ");
                push_str(out, name.as_str());
                push_str(out, " = ");
                e.write_text(out);
                assert(out@ =~= before + stmt_text(self@));
            },
            Stmt::When(e, body) => {
                push_str(out, "when ");
                e.write_text(out);
                push_str(out, " ");
                body.write_text(out);
                assert(out@ =~= before + stmt_text(self@));
            },
            Stmt::Wait(e, body) => {
                push_str(out, "wait ");
                e.write_text(out);
                push_str(out, " ");
                body.write_text(out);
                assert(out@ =~= before + stmt_text(self@));
            },
            Stmt::At(e, body) => {
                push_str(out, "at ");
                e.write_text(out);
                push_str(out, " ");
                body.write_text(out);
                assert(out@ =~= before + stmt_text(self@));
            },
            Stmt::Expr(e) => e.write_text(out),
            Stmt::Print(e) => {
                push_str(out, "print ");
                e.write_text(out);
                assert(out@ =~= before + stmt_text(self@));
            },
            Stmt::Scene(name, body) => {
                push_str(out, "scene ");
                push_str(out, name.as_str());
                push_str(out, " ");
                body.write_text(out);
                assert(out@ =~= before + stmt_text(self@));
            },
            Stmt::Start(name) => {
                push_str(out, "start ");
                push_str(out, name.as_str());
                assert(out@ =~= before + stmt_text(self@));
            },
            Stmt::Stop(name) => {
                push_str(out, "stop ");
                push_str(out, name.as_str());
                assert(out@ =~= before + stmt_text(self@));
            },
        }
    }

    /// The statement written out for a reader.
    pub fn to_text(&self) -> (r: String)
        ensures
            r@ == stmt_text(self@),
    {
        let mut out: Vec<char> = Vec::new();
        self.write_text(&mut out);
        assert(out@ =~= stmt_text(self@));
        string_of(out.as_slice())
    }
}

} // verus!
