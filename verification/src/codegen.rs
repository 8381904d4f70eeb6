//! WebAssembly text: expressions of the text format, turned into
//! S-expressions and printed by `lexpr`.

use crate::text::{decimal, utf8_text};
use vstd::pervasive::unreached;
use vstd::prelude::*;
use vstd::utf8::{encode_utf8, encode_utf8_decode_utf8, encode_utf8_valid_utf8};

verus! {

/// The error of the standard library's input and output, which printing can
/// end in. Nothing is known of what it holds.
#[verifier::external_type_specification]
#[verifier::external_body]
pub struct ExIoError(std::io::Error);

/// The types of WebAssembly values.
#[derive(Clone, Copy, Debug, PartialEq, Eq, Structural)]
pub enum Type {
    I32,
    I64,
    F32,
    F64,
}

/// The mathematical content of a [`WASMExpr`].
pub enum WasmView {
    Module(Seq<WasmView>),
    Func(Seq<WasmView>),
    Param(Type, Option<Seq<char>>),
    Result(Type, Option<Seq<char>>),
    Local(Type, Option<Seq<char>>),
    Cmd(Seq<char>),
    Number(i64),
    Name(Seq<char>),
    Call,
}

/// An expression of the WebAssembly text format.
#[derive(Debug, PartialEq)]
pub enum WASMExpr {
    Module(Vec<WASMExpr>),
    Func(Vec<WASMExpr>),
    Param(Type, Option<String>),
    Result(Type, Option<String>),
    Local(Type, Option<String>),
    Cmd(String),
    Number(i64),
    Name(String),
    Call,
}

/// The content of a name that may be missing.
pub open spec fn name_view(name: Option<String>) -> Option<Seq<char>> {
    match name {
        Some(n) => Some(n@),
        None => None,
    }
}

/// The mathematical content of `w`.
pub open spec fn wasm_view(w: WASMExpr) -> WasmView
    decreases w,
{
    match w {
        WASMExpr::Module(exprs) => WasmView::Module(
            Seq::new(
                exprs@.len(),
                |i: int|
                    if 0 <= i < exprs@.len() {
                        wasm_view(exprs@[i])
                    } else {
                        WasmView::Call
                    },
            ),
        ),
        WASMExpr::Func(exprs) => WasmView::Func(
            Seq::new(
                exprs@.len(),
                |i: int|
                    if 0 <= i < exprs@.len() {
                        wasm_view(exprs@[i])
                    } else {
                        WasmView::Call
                    },
            ),
        ),
        WASMExpr::Param(t, name) => WasmView::Param(t, name_view(name)),
        WASMExpr::Result(t, name) => WasmView::Result(t, name_view(name)),
        WASMExpr::Local(t, name) => WasmView::Local(t, name_view(name)),
        WASMExpr::Cmd(name) => WasmView::Cmd(name@),
        WASMExpr::Number(n) => WasmView::Number(n),
        WASMExpr::Name(name) => WasmView::Name(name@),
        WASMExpr::Call => WasmView::Call,
    }
}

impl View for WASMExpr {
    type V = WasmView;

    open spec fn view(&self) -> WasmView {
        wasm_view(*self)
    }
}

/// The contents of a list of expressions.
pub open spec fn wasms_view(exprs: Seq<WASMExpr>) -> Seq<WasmView> {
    Seq::new(exprs.len(), |i: int| exprs[i]@)
}

/// The views of a module and of a function are the views of what they hold.
pub proof fn list_view(exprs: Vec<WASMExpr>)
    ensures
        WASMExpr::Module(exprs)@ == WasmView::Module(wasms_view(exprs@)),
        WASMExpr::Func(exprs)@ == WasmView::Func(wasms_view(exprs@)),
{
    reveal_with_fuel(wasm_view, 2);
    assert(WASMExpr::Module(exprs)@->Module_0 =~= wasms_view(exprs@));
    assert(WASMExpr::Func(exprs)@->Func_0 =~= wasms_view(exprs@));
}

/// The mathematical content of a [`Sexp`].
pub enum SexpView {
    Null,
    Symbol(Seq<char>),
    Number(i64),
    Cons(Box<SexpView>, Box<SexpView>),
}

/// An S-expression: the empty list, a symbol, a number, or a pair.
#[derive(Debug, PartialEq)]
pub enum Sexp {
    Null,
    Symbol(String),
    Number(i64),
    Cons(Box<Sexp>, Box<Sexp>),
}

/// The mathematical content of `s`.
pub open spec fn sexp_view(s: Sexp) -> SexpView
    decreases s,
{
    match s {
        Sexp::Null => SexpView::Null,
        Sexp::Symbol(name) => SexpView::Symbol(name@),
        Sexp::Number(n) => SexpView::Number(n),
        Sexp::Cons(head, rest) => SexpView::Cons(
            Box::new(sexp_view(*head)),
            Box::new(sexp_view(*rest)),
        ),
    }
}

impl View for Sexp {
    type V = SexpView;

    open spec fn view(&self) -> SexpView {
        sexp_view(*self)
    }
}

/// The pair of `head` and `rest`.
pub open spec fn cons(head: SexpView, rest: SexpView) -> SexpView {
    SexpView::Cons(Box::new(head), Box::new(rest))
}

/// The symbol of a type.
pub open spec fn type_symbol(t: Type) -> SexpView {
    match t {
        Type::I32 => SexpView::Symbol("i32"@),
        Type::I64 => SexpView::Symbol("i64"@),
        Type::F32 => SexpView::Symbol("f32"@),
        Type::F64 => SexpView::Symbol("f64"@),
    }
}

/// The list that declares something of the type `t`: the keyword, the name if
/// there is one, and the type.
pub open spec fn declaration(keyword: Seq<char>, t: Type, name: Option<Seq<char>>) -> SexpView {
    match name {
        Some(n) => cons(
            SexpView::Symbol(keyword),
            cons(SexpView::Symbol(n), cons(type_symbol(t), SexpView::Null)),
        ),
        None => cons(SexpView::Symbol(keyword), cons(type_symbol(t), SexpView::Null)),
    }
}

/// The list of the S-expressions of the expressions from the place `from` on.
pub open spec fn list_from(exprs: Seq<WasmView>, from: nat) -> SexpView
    decreases exprs, exprs.len() - from,
{
    if from >= exprs.len() {
        SexpView::Null
    } else {
        cons(sexpr_of(exprs[from as int]), list_from(exprs, from + 1))
    }
}

/// The S-expression of an expression: a module and a function are lists that
/// start with their keyword, a declaration is a list of its own, a command
/// and a name are symbols.
pub open spec fn sexpr_of(w: WasmView) -> SexpView
    decreases w, 0nat,
{
    match w {
        WasmView::Module(exprs) => cons(SexpView::Symbol("module"@), list_from(exprs, 0)),
        WasmView::Func(exprs) => cons(SexpView::Symbol("func"@), list_from(exprs, 0)),
        WasmView::Param(t, name) => declaration("param"@, t, name),
        WasmView::Result(t, name) => declaration("result"@, t, name),
        WasmView::Local(t, name) => declaration("local"@, t, name),
        WasmView::Cmd(name) => SexpView::Symbol(name),
        WasmView::Number(n) => SexpView::Number(n),
        WasmView::Name(name) => SexpView::Symbol(name),
        WasmView::Call => SexpView::Symbol("call"@),
    }
}

/// The text of an S-expression: the empty list is `()`, a symbol is its
/// name, a number is written in decimal, and a pair is a list in brackets.
pub open spec fn sexp_text(s: SexpView) -> Seq<char>
    decreases s, 0nat,
{
    match s {
        SexpView::Null => "()"@,
        SexpView::Symbol(name) => name,
        SexpView::Number(n) => decimal(n as int),
        SexpView::Cons(head, rest) => "("@ + sexp_text(*head) + rest_text(*rest) + ")"@,
    }
}

/// The text of what follows the first item of a list: each further item
/// after a space, and after a space, a dot and a space a last part that is
/// no list.
pub open spec fn rest_text(rest: SexpView) -> Seq<char>
    decreases rest, 1nat,
{
    match rest {
        SexpView::Null => Seq::empty(),
        SexpView::Cons(head, more) => " "@ + sexp_text(*head) + rest_text(*more),
        _ => " . "@ + sexp_text(rest),
    }
}

/// An S-expression as `lexpr` holds it, on its way to the printer.
#[verifier::external_body]
struct LexprTree {
    tree: lexpr::Value,
}

/// Turns an S-expression into a value of `lexpr`, variant by variant.
#[verifier::external_body]
fn sexp_to_lexpr(s: &Sexp) -> LexprTree {
    let tree = match s {
        Sexp::Null => lexpr::Value::Null,
        Sexp::Symbol(name) => lexpr::Value::Symbol(name.clone().into_boxed_str()),
        Sexp::Number(n) => lexpr::Value::Number((*n).into()),
        Sexp::Cons(head, rest) => lexpr::Cons::new(
            sexp_to_lexpr(head).tree,
            sexp_to_lexpr(rest).tree,
        ).into(),
    };
    LexprTree { tree }
}

/// The content of what printing gave.
pub open spec fn printed_view(r: Result<Vec<u8>, std::io::Error>) -> Option<Seq<u8>> {
    match r {
        Ok(bytes) => Some(bytes@),
        Err(_) => None,
    }
}

/// Prints an S-expression with `lexpr::to_vec`, which writes into a vector
/// and so does not fail: the empty list as `()`, a symbol as its name, a
/// number in decimal, and a chain of pairs as one list in brackets, its
/// items a space apart, with a dot before a last part that is no list.
#[verifier::external_body]
fn print_sexp(s: &Sexp) -> (r: Result<Vec<u8>, std::io::Error>)
    ensures
        printed_view(r) == Some(encode_utf8(sexp_text(s@))),
{
    lexpr::to_vec(&sexp_to_lexpr(s).tree)
}

/// A symbol with the name `name`.
fn symbol(name: &str) -> (r: Sexp)
    ensures
        r@ == SexpView::Symbol(name@),
{
    Sexp::Symbol(String::from_str(name))
}

/// The pair of `head` and `rest`.
fn pair(head: Sexp, rest: Sexp) -> (r: Sexp)
    ensures
        r@ == cons(head@, rest@),
{
    Sexp::Cons(Box::new(head), Box::new(rest))
}

impl Type {
    /// The symbol of the type.
    pub fn to_sexpr(&self) -> (r: Sexp)
        ensures
            r@ == type_symbol(*self),
    {
        match self {
            Type::I32 => symbol("i32"),
            Type::I64 => symbol("i64"),
            Type::F32 => symbol("f32"),
            Type::F64 => symbol("f64"),
        }
    }
}

/// The list that declares something of the type `typ`.
fn def_to_sexpr(sym: &str, typ: &Type, name: &Option<String>) -> (r: Sexp)
    ensures
        r@ == declaration(sym@, *typ, name_view(*name)),
{
    match name {
        Some(n) => pair(
            symbol(sym),
            pair(Sexp::Symbol(n.clone()), pair(typ.to_sexpr(), Sexp::Null)),
        ),
        None => pair(symbol(sym), pair(typ.to_sexpr(), Sexp::Null)),
    }
}

/// The list of the S-expressions of the expressions.
fn vec_to_sexpr(vw: &Vec<WASMExpr>) -> (r: Sexp)
    ensures
        r@ == list_from(wasms_view(vw@), 0),
    decreases vw,
{
    let ghost view = wasms_view(vw@);
    let mut acc = Sexp::Null;
    let mut i: usize = vw.len();
    while i > 0
        invariant
            i <= vw.len(),
            view == wasms_view(vw@),
            acc@ == list_from(view, i as nat),
        decreases i,
    {
        i -= 1;
        proof {
            assert(decreases_to!(*vw => vw[i as int]));
        }
        let head = to_sexpr(&vw[i]);
        assert(view[i as int] == vw@[i as int]@);
        acc = pair(head, acc);
    }
    acc
}

/// The S-expression of an expression.
pub fn to_sexpr(wexpr: &WASMExpr) -> (r: Sexp)
    ensures
        r@ == sexpr_of(wexpr@),
    decreases wexpr,
{
    match wexpr {
        WASMExpr::Module(exprs) => {
            proof {
                list_view(*exprs);
            }
            pair(symbol("module"), vec_to_sexpr(exprs))
        },
        WASMExpr::Func(exprs) => {
            proof {
                list_view(*exprs);
            }
            pair(symbol("func"), vec_to_sexpr(exprs))
        },
        WASMExpr::Param(typ, name) => def_to_sexpr("param", typ, name),
        WASMExpr::Result(typ, name) => def_to_sexpr("result", typ, name),
        WASMExpr::Local(typ, name) => def_to_sexpr("local", typ, name),
        WASMExpr::Cmd(name) => Sexp::Symbol(name.clone()),
        WASMExpr::Number(n) => Sexp::Number(*n),
        WASMExpr::Name(name) => Sexp::Symbol(name.clone()),
        WASMExpr::Call => symbol("call"),
    }
}

/// The text of an expression, as bytes.
pub fn to_vec(wexpr: &WASMExpr) -> (r: Result<Vec<u8>, std::io::Error>)
    ensures
        r matches Ok(bytes) && bytes@ == encode_utf8(sexp_text(sexpr_of(wexpr@))),
{
    let sexpr = to_sexpr(wexpr);
    print_sexp(&sexpr)
}

/// The text of an expression. An error of the printer is handed on as it
/// came; what it prints is always text.
pub fn to_string(wexpr: &WASMExpr) -> (r: Result<String, std::io::Error>)
    ensures
        r matches Ok(text) && text@ == sexp_text(sexpr_of(wexpr@)),
{
    broadcast use {encode_utf8_valid_utf8, encode_utf8_decode_utf8};

    match to_vec(wexpr) {
        Ok(bytes) => match utf8_text(bytes.as_slice()) {
            Some(text) => Ok(text),
            None => unreached(),
        },
        Err(e) => Err(e),
    }
}

} // verus!
