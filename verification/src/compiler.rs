//! Code for the virtual machine, and the compiler that turns a script into it.

use crate::ast::{block_view, stmts_view, BinaryOpcode, Expr, ExprView, Stmt, StmtView};
use crate::error::CompileError;
use crate::literal::literal_of;
use crate::scope::{bound, depth_of, has_room, nested, root_scopes, total_depth, Env, ScopeView};
use crate::targets::{compiled_code_points_within, self_contained};
use crate::value::ValueView;
pub use crate::value::{Duration, TimeOfDay, Value};
use vstd::prelude::*;

verus! {

/// One step of the virtual machine.
#[derive(Clone, Copy, Debug, PartialEq, Eq, Structural)]
pub enum Instruction {
    /// Push the constant with this index.
    Constant(usize),
    /// Pop a value and print its text.
    Print,
    /// Push a copy of the value this far below the top.
    Pick(usize),
    /// Discard the top.
    Pop,
    /// Swap the two values on top.
    Swap,
    /// Start a task at the next instruction and go on at this address.
    Spawn(usize),
    /// Go on at this address.
    Jump(usize),
    /// Pop a boolean and go on at this address if it is false.
    JmpNot(usize),
    /// Pop an address, remember the next instruction and go on at the address.
    Call,
    /// Go on where the last call came from.
    Return,
    /// End the task.
    Term,
    /// Pop a span of time and wait for it to pass.
    Wait,
    /// Pop a time of day and wait until the clock next shows it.
    At,
    /// Pop a value and a path and send the value to the topic.
    Publish,
    /// Cancel the tasks of the group that the task is in.
    Stop,
    /// Put the task into a group of its own.
    SceneContext,
    /// Pop a path and push the next value that its topic receives.
    Get,
    /// Pop two values and push whether they are equal.
    Equal,
    /// Pop a key and an object and push what the object holds under the key.
    Index,
}

/// The mathematical content of [`Code`].
pub struct CodeView {
    pub instructions: Seq<Instruction>,
    pub constants: Seq<ValueView>,
}

/// A compiled script: instructions and the constants they refer to.
#[derive(Debug, PartialEq)]
pub struct Code {
    pub instructions: Vec<Instruction>,
    pub constants: Vec<Value>,
}

/// The contents of a list of values.
pub open spec fn values_view(values: Seq<Value>) -> Seq<ValueView> {
    Seq::new(values.len(), |i: int| values[i]@)
}

impl View for Code {
    type V = CodeView;

    open spec fn view(&self) -> CodeView {
        CodeView { instructions: self.instructions@, constants: values_view(self.constants@) }
    }
}

/// A run of instructions and the constants that it adds to the pool.
pub struct Fragment {
    pub code: Seq<Instruction>,
    pub constants: Seq<ValueView>,
}

impl Fragment {
    /// No instructions and no constants.
    pub open spec fn empty() -> Fragment {
        Fragment { code: Seq::empty(), constants: Seq::empty() }
    }

    /// Instructions that add no constants.
    pub open spec fn of(code: Seq<Instruction>) -> Fragment {
        Fragment { code, constants: Seq::empty() }
    }

    /// One instruction.
    pub open spec fn one(inst: Instruction) -> Fragment {
        Fragment { code: seq![inst], constants: Seq::empty() }
    }

    /// One constant and no instruction.
    pub open spec fn constant(value: ValueView) -> Fragment {
        Fragment { code: Seq::empty(), constants: seq![value] }
    }

    /// This fragment followed by `next`.
    pub open spec fn with(self, next: Fragment) -> Fragment {
        Fragment { code: self.code + next.code, constants: self.constants + next.constants }
    }
}

impl CodeView {
    /// The code with `frag` added at its end.
    pub open spec fn with(self, frag: Fragment) -> CodeView {
        CodeView {
            instructions: self.instructions + frag.code,
            constants: self.constants + frag.constants,
        }
    }
}

/// The name under which a scene's stop routine is bound: the scene's name,
/// a space and `stop`. No name in a script holds a space.
pub open spec fn stop_name(id: Seq<char>) -> Seq<char> {
    id + " stop"@
}

/// The instruction that reads the name `id`, or why there is none.
pub open spec fn pick_code(env: Seq<ScopeView>, id: Seq<char>) -> Result<Fragment, CompileError> {
    if depth_of(env, id) == 0 {
        Err(CompileError::UndefinedIdentifier)
    } else {
        Ok(Fragment::one(Instruction::Pick((depth_of(env, id) - 1) as usize)))
    }
}

/// The code that pushes the constant `value`, where `k` constants are in the
/// pool already.
pub open spec fn constant_code(value: ValueView, k: nat) -> Fragment {
    Fragment::constant(value).with(Fragment::one(Instruction::Constant(k as usize)))
}

/// The code that leaves the value of `e` on top of the stack, where `k`
/// constants are in the pool already.
#[verifier::opaque]
pub open spec fn expr_code(e: ExprView, env: Seq<ScopeView>, k: nat) -> Result<
    Fragment,
    CompileError,
>
    decreases e,
{
    match e {
        ExprView::Ident(id) => pick_code(env, id),
        ExprView::Binary(lhs, op, rhs) => match expr_code(*lhs, env, k) {
            Err(e) => Err(e),
            Ok(left) => match expr_code(*rhs, env, k + left.constants.len()) {
                Err(e) => Err(e),
                Ok(right) => if op == BinaryOpcode::Eql {
                    Ok(left.with(right).with(Fragment::one(Instruction::Equal)))
                } else {
                    Err(CompileError::UnsupportedOperator)
                },
            },
        },
        ExprView::Path(path) => Ok(
            constant_code(ValueView::Path(path), k).with(Fragment::one(Instruction::Get)),
        ),
        ExprView::As(init, id, cont) => match expr_code(*init, env, k) {
            Err(e) => Err(e),
            Ok(first) => if !has_room(env) {
                Err(CompileError::TooLarge)
            } else {
                match expr_code(*cont, bound(nested(env), id), k + first.constants.len()) {
                    Err(e) => Err(e),
                    Ok(second) => Ok(
                        first.with(second).with(Fragment::one(Instruction::Swap)).with(
                            Fragment::one(Instruction::Pop),
                        ),
                    ),
                }
            },
        },
        ExprView::Index(obj, prop) => match expr_code(*obj, env, k) {
            Err(e) => Err(e),
            Ok(first) => Ok(
                first.with(constant_code(ValueView::Str(prop), k + first.constants.len())).with(
                    Fragment::one(Instruction::Index),
                ),
            ),
        },
        _ => match literal_of(e) {
            Err(e) => Err(e),
            Ok(value) => Ok(constant_code(value, k)),
        },
    }
}

/// `n` times `Pop`.
pub open spec fn pops(n: nat) -> Seq<Instruction> {
    Seq::new(n, |i: int| Instruction::Pop)
}

/// The code of a task that a statement starts: a spawn that leads the parent
/// past the task, then the task, which is `head`, the instruction `test`,
/// `body`, and the instruction `last`. `at` is the address of the spawn.
pub open spec fn task_code(
    at: nat,
    head: Fragment,
    test: Instruction,
    body: Fragment,
    last: Instruction,
) -> Fragment {
    Fragment::one(Instruction::Spawn((at + head.code.len() + body.code.len() + 3) as usize)).with(
        head.with(Fragment::one(test)).with(body).with(Fragment::one(last)),
    )
}

/// The instruction between the head and the body of the task that a statement
/// starts, where `at` is the address of the spawn.
pub open spec fn task_test(s: StmtView, at: nat) -> Instruction {
    match s {
        StmtView::When(_, _) => Instruction::JmpNot((at + 1) as usize),
        StmtView::Wait(_, _) => Instruction::Wait,
        _ => Instruction::At,
    }
}

/// The last instruction of the task that a statement starts: a task that
/// waits ends, the others start over.
pub open spec fn task_last(s: StmtView, at: nat) -> Instruction {
    match s {
        StmtView::Wait(_, _) => Instruction::Term,
        _ => Instruction::Jump((at + 1) as usize),
    }
}

/// The code of a scene around the code `inner` of its body: the two addresses
/// of the scene are pushed, a jump leads past the scene, then come the body
/// between `SceneContext` and `Return`, and the stop routine.
pub open spec fn scene_code(at: nat, k: nat, inner: Fragment) -> Fragment {
    Fragment {
        code: seq![
            Instruction::Constant(k as usize),
            Instruction::Constant((k + 1) as usize),
            Instruction::Jump((at + inner.code.len() + 7) as usize),
            Instruction::SceneContext,
        ],
        constants: seq![
            ValueView::Jump((at + 3) as usize),
            ValueView::Jump((at + inner.code.len() + 5) as usize),
        ],
    }.with(inner).with(
        Fragment::of(seq![Instruction::Return, Instruction::Stop, Instruction::Return]),
    )
}

/// The code of the first `n` statements of a block, one after the other, and
/// the scopes after them.
#[verifier::opaque]
pub open spec fn block_code(
    stmts: Seq<StmtView>,
    n: nat,
    env: Seq<ScopeView>,
    at: nat,
    k: nat,
) -> Result<(Fragment, Seq<ScopeView>), CompileError>
    decreases stmts, n,
{
    if n == 0 || n > stmts.len() {
        Ok((Fragment::empty(), env))
    } else {
        match block_code(stmts, (n - 1) as nat, env, at, k) {
            Err(e) => Err(e),
            Ok((before, scopes)) => match stmt_code(
                stmts[n - 1],
                scopes,
                at + before.code.len(),
                k + before.constants.len(),
            ) {
                Err(e) => Err(e),
                Ok((frag, after)) => Ok((before.with(frag), after)),
            },
        }
    }
}

/// The code of a statement that starts a task, with the head `e` and the
/// body `body`.
#[verifier::opaque]
pub open spec fn spawn_code(
    s: StmtView,
    e: ExprView,
    body: StmtView,
    env: Seq<ScopeView>,
    at: nat,
    k: nat,
) -> Result<(Fragment, Seq<ScopeView>), CompileError>
    decreases body, 1nat,
{
    match expr_code(e, env, k) {
        Err(e) => Err(e),
        Ok(head) => match stmt_code(body, env, at + head.code.len() + 2, k + head.constants.len()) {
            Err(e) => Err(e),
            Ok((inner, after)) => Ok(
                (task_code(at, head, task_test(s, at), inner, task_last(s, at)), after),
            ),
        },
    }
}

/// The code of a statement whose first instruction has the address `at`,
/// where `k` constants are in the pool already, and the scopes after it.
#[verifier::opaque]
pub open spec fn stmt_code(s: StmtView, env: Seq<ScopeView>, at: nat, k: nat) -> Result<
    (Fragment, Seq<ScopeView>),
    CompileError,
>
    decreases s, 0nat,
{
    match s {
        StmtView::Print(e) => match expr_code(e, env, k) {
            Err(e) => Err(e),
            Ok(value) => Ok((value.with(Fragment::one(Instruction::Print)), env)),
        },
        StmtView::Let(id, e) => match expr_code(e, env, k) {
            Err(e) => Err(e),
            Ok(value) => if has_room(env) {
                Ok((value, bound(env, id)))
            } else {
                Err(CompileError::TooLarge)
            },
        },
        StmtView::Block(stmts) => match block_code(stmts, stmts.len(), nested(env), at, k) {
            Err(e) => Err(e),
            Ok((body, inner)) => Ok(
                (body.with(Fragment::of(pops(inner.last().depth as nat))), env),
            ),
        },
        StmtView::When(e, body) => spawn_code(s, e, *body, env, at, k),
        StmtView::Wait(e, body) => spawn_code(s, e, *body, env, at, k),
        StmtView::At(e, body) => spawn_code(s, e, *body, env, at, k),
        StmtView::Publish(path, e) => match expr_code(e, env, k + 1) {
            Err(e) => Err(e),
            Ok(value) => Ok(
                (
                    constant_code(ValueView::Path(path), k).with(value).with(
                        Fragment::one(Instruction::Publish),
                    ),
                    env,
                ),
            ),
        },
        StmtView::Expr(e) => match expr_code(e, env, k) {
            Err(e) => Err(e),
            Ok(value) => Ok((value.with(Fragment::one(Instruction::Pop)), env)),
        },
        StmtView::Scene(id, body) => if total_depth(env) + 2 > usize::MAX {
            Err(CompileError::TooLarge)
        } else {
            match stmt_code(*body, bound(bound(env, id), stop_name(id)), at + 4, k + 2) {
                Err(e) => Err(e),
                Ok((inner, after)) => Ok((scene_code(at, k, inner), after)),
            }
        },
        StmtView::Start(id) => match pick_code(env, id) {
            Err(e) => Err(e),
            Ok(pick) => Ok((pick.with(Fragment::one(Instruction::Call)), env)),
        },
        StmtView::Stop(id) => match pick_code(env, stop_name(id)) {
            Err(e) => Err(e),
            Ok(pick) => Ok((pick.with(Fragment::one(Instruction::Call)), env)),
        },
    }
}

/// The code of a whole script: the code of its statement, then `Term`.
pub open spec fn program(ast: StmtView) -> Result<CodeView, CompileError> {
    match stmt_code(ast, root_scopes(), 0, 0) {
        Err(e) => Err(e),
        Ok((frag, _)) => Ok(
            CodeView { instructions: frag.code, constants: frag.constants }.with(
                Fragment::one(Instruction::Term),
            ),
        ),
    }
}

/// Two pieces of code with the same instructions and the same constants are
/// the same code.
proof fn same_code(a: CodeView, b: CodeView)
    requires
        a.instructions =~= b.instructions,
        a.constants =~= b.constants,
    ensures
        a == b,
{
}

/// Adding two fragments one after the other adds the two as one.
proof fn with_with(c: CodeView, a: Fragment, b: Fragment)
    ensures
        c.with(a).with(b) == c.with(a.with(b)),
{
    same_code(c.with(a).with(b), c.with(a.with(b)));
}

/// Replacing the first instruction of what was added leaves the rest.
proof fn first_replaced(c: CodeView, first: Instruction, rest: Fragment, inst: Instruction)
    ensures
        (CodeView {
            instructions: c.with(Fragment::one(first)).with(rest).instructions.update(
                c.instructions.len() as int,
                inst,
            ),
            constants: c.with(Fragment::one(first)).with(rest).constants,
        }) == c.with(Fragment::one(inst).with(rest)),
{
    same_code(
        CodeView {
            instructions: c.with(Fragment::one(first)).with(rest).instructions.update(
                c.instructions.len() as int,
                inst,
            ),
            constants: c.with(Fragment::one(first)).with(rest).constants,
        },
        c.with(Fragment::one(inst).with(rest)),
    );
}

/// One more `Pop` after `n` of them makes `n + 1`.
proof fn one_more_pop(n: nat)
    ensures
        Fragment::of(pops(n)).with(Fragment::one(Instruction::Pop)) == Fragment::of(pops(n + 1)),
        Fragment::of(pops(0)) == Fragment::empty(),
{
    assert(pops(n) + seq![Instruction::Pop] =~= pops(n + 1));
    assert(Seq::<ValueView>::empty() + Seq::<ValueView>::empty() =~= Seq::<ValueView>::empty());
    assert(pops(0) =~= Seq::empty());
}

/// Adding nothing changes nothing.
proof fn with_empty(c: CodeView)
    ensures
        c.with(Fragment::empty()) == c,
{
    same_code(c.with(Fragment::empty()), c);
}

/// The code of a name is the instruction that reads it.
pub proof fn name_code(id: Seq<char>, env: Seq<ScopeView>, k: nat)
    ensures
        expr_code(ExprView::Ident(id), env, k) == pick_code(env, id),
{
    reveal_with_fuel(expr_code, 1);
}

/// The code of two operands and their operator.
pub proof fn binary_code(
    lhs: ExprView,
    op: BinaryOpcode,
    rhs: ExprView,
    env: Seq<ScopeView>,
    k: nat,
)
    ensures
        expr_code(ExprView::Binary(Box::new(lhs), op, Box::new(rhs)), env, k) == (match expr_code(
            lhs,
            env,
            k,
        ) {
            Err(e) => Err::<Fragment, CompileError>(e),
            Ok(left) => match expr_code(rhs, env, k + left.constants.len()) {
                Err(e) => Err(e),
                Ok(right) => if op == BinaryOpcode::Eql {
                    Ok(left.with(right).with(Fragment::one(Instruction::Equal)))
                } else {
                    Err(CompileError::UnsupportedOperator)
                },
            },
        }),
{
    reveal_with_fuel(expr_code, 1);
}

/// The code that reads a topic.
pub proof fn path_code(path: Seq<char>, env: Seq<ScopeView>, k: nat)
    ensures
        expr_code(ExprView::Path(path), env, k) == Ok::<Fragment, CompileError>(
            constant_code(ValueView::Path(path), k).with(Fragment::one(Instruction::Get)),
        ),
{
    reveal_with_fuel(expr_code, 1);
}

/// The code of `init as id in cont`.
pub proof fn as_code(init: ExprView, id: Seq<char>, cont: ExprView, env: Seq<ScopeView>, k: nat)
    ensures
        expr_code(ExprView::As(Box::new(init), id, Box::new(cont)), env, k) == (match expr_code(
            init,
            env,
            k,
        ) {
            Err(e) => Err::<Fragment, CompileError>(e),
            Ok(first) => if !has_room(env) {
                Err(CompileError::TooLarge)
            } else {
                match expr_code(cont, bound(nested(env), id), k + first.constants.len()) {
                    Err(e) => Err(e),
                    Ok(second) => Ok(
                        first.with(second).with(Fragment::one(Instruction::Swap)).with(
                            Fragment::one(Instruction::Pop),
                        ),
                    ),
                }
            },
        }),
{
    reveal_with_fuel(expr_code, 1);
}

/// The code of `obj.prop`.
pub proof fn index_code(obj: ExprView, prop: Seq<char>, env: Seq<ScopeView>, k: nat)
    ensures
        expr_code(ExprView::Index(Box::new(obj), prop), env, k) == (match expr_code(obj, env, k) {
            Err(e) => Err::<Fragment, CompileError>(e),
            Ok(first) => Ok(
                first.with(constant_code(ValueView::Str(prop), k + first.constants.len())).with(
                    Fragment::one(Instruction::Index),
                ),
            ),
        }),
{
    reveal_with_fuel(expr_code, 1);
}

/// The code of a literal pushes its value.
pub proof fn literal_code(e: ExprView, env: Seq<ScopeView>, k: nat)
    requires
        !(e is Ident),
        !(e is Binary),
        !(e is Path),
        !(e is As),
        !(e is Index),
    ensures
        expr_code(e, env, k) == (match literal_of(e) {
            Err(e) => Err::<Fragment, CompileError>(e),
            Ok(value) => Ok(constant_code(value, k)),
        }),
{
    reveal_with_fuel(expr_code, 1);
}

/// The code of a task: the code of its head and of its body, between the
/// instructions that frame them.
pub proof fn spawn_code_of(
    s: StmtView,
    e: ExprView,
    body: StmtView,
    env: Seq<ScopeView>,
    at: nat,
    k: nat,
)
    ensures
        spawn_code(s, e, body, env, at, k) == (match expr_code(e, env, k) {
            Err(e) => Err::<(Fragment, Seq<ScopeView>), CompileError>(e),
            Ok(head) => match stmt_code(
                body,
                env,
                at + head.code.len() + 2,
                k + head.constants.len(),
            ) {
                Err(e) => Err(e),
                Ok((inner, after)) => Ok(
                    (task_code(at, head, task_test(s, at), inner, task_last(s, at)), after),
                ),
            },
        }),
{
    reveal_with_fuel(spawn_code, 1);
    reveal_with_fuel(stmt_code, 1);
    reveal_with_fuel(block_code, 1);
}

/// The code of no statements is none, and the code of one statement more is
/// the code so far followed by the code of that statement.
pub proof fn block_code_of(stmts: Seq<StmtView>, n: nat, env: Seq<ScopeView>, at: nat, k: nat)
    ensures
        block_code(stmts, 0, env, at, k) == Ok::<(Fragment, Seq<ScopeView>), CompileError>(
            (Fragment::empty(), env),
        ),
        0 < n <= stmts.len() ==> block_code(stmts, n, env, at, k) == (match block_code(
            stmts,
            (n - 1) as nat,
            env,
            at,
            k,
        ) {
            Err(e) => Err::<(Fragment, Seq<ScopeView>), CompileError>(e),
            Ok((before, scopes)) => match stmt_code(
                stmts[n - 1],
                scopes,
                at + before.code.len(),
                k + before.constants.len(),
            ) {
                Err(e) => Err(e),
                Ok((frag, after)) => Ok((before.with(frag), after)),
            },
        }),
{
    reveal_with_fuel(block_code, 1);
    reveal_with_fuel(stmt_code, 1);
    reveal_with_fuel(spawn_code, 1);
}

/// The code of `print e`.
pub proof fn print_code(e: ExprView, env: Seq<ScopeView>, at: nat, k: nat)
    ensures
        stmt_code(StmtView::Print(e), env, at, k) == (match expr_code(e, env, k) {
            Err(e) => Err::<(Fragment, Seq<ScopeView>), CompileError>(e),
            Ok(value) => Ok((value.with(Fragment::one(Instruction::Print)), env)),
        }),
{
    reveal_with_fuel(stmt_code, 1);
}

/// The code of an expression that stands as a statement.
pub proof fn drop_code(e: ExprView, env: Seq<ScopeView>, at: nat, k: nat)
    ensures
        stmt_code(StmtView::Expr(e), env, at, k) == (match expr_code(e, env, k) {
            Err(e) => Err::<(Fragment, Seq<ScopeView>), CompileError>(e),
            Ok(value) => Ok((value.with(Fragment::one(Instruction::Pop)), env)),
        }),
{
    reveal_with_fuel(stmt_code, 1);
}

/// The code of `let id = e`.
pub proof fn let_code(id: Seq<char>, e: ExprView, env: Seq<ScopeView>, at: nat, k: nat)
    ensures
        stmt_code(StmtView::Let(id, e), env, at, k) == (match expr_code(e, env, k) {
            Err(e) => Err::<(Fragment, Seq<ScopeView>), CompileError>(e),
            Ok(value) => if has_room(env) {
                Ok((value, bound(env, id)))
            } else {
                Err(CompileError::TooLarge)
            },
        }),
{
    reveal_with_fuel(stmt_code, 1);
}

/// The code of a block: the code of its statements in a scope of their own,
/// then one `Pop` for each value that the scope has pushed.
pub proof fn braces_code(stmts: Seq<StmtView>, env: Seq<ScopeView>, at: nat, k: nat)
    ensures
        stmt_code(StmtView::Block(stmts), env, at, k) == (match block_code(
            stmts,
            stmts.len(),
            nested(env),
            at,
            k,
        ) {
            Err(e) => Err::<(Fragment, Seq<ScopeView>), CompileError>(e),
            Ok((body, inner)) => Ok(
                (body.with(Fragment::of(pops(inner.last().depth as nat))), env),
            ),
        }),
{
    reveal_with_fuel(stmt_code, 1);
    reveal_with_fuel(block_code, 1);
    reveal_with_fuel(spawn_code, 1);
}

/// The code of `when`, `wait` and `at` is that of the task they start.
pub proof fn starts_task(s: StmtView, env: Seq<ScopeView>, at: nat, k: nat)
    ensures
        s matches StmtView::When(e, body) ==> stmt_code(s, env, at, k) == spawn_code(
            s,
            e,
            *body,
            env,
            at,
            k,
        ),
        s matches StmtView::Wait(e, body) ==> stmt_code(s, env, at, k) == spawn_code(
            s,
            e,
            *body,
            env,
            at,
            k,
        ),
        s matches StmtView::At(e, body) ==> stmt_code(s, env, at, k) == spawn_code(
            s,
            e,
            *body,
            env,
            at,
            k,
        ),
{
    reveal_with_fuel(stmt_code, 1);
    reveal_with_fuel(spawn_code, 1);
    reveal_with_fuel(block_code, 1);
}

/// The code of `set [path] e`.
pub proof fn publish_code(path: Seq<char>, e: ExprView, env: Seq<ScopeView>, at: nat, k: nat)
    ensures
        stmt_code(StmtView::Publish(path, e), env, at, k) == (match expr_code(e, env, k + 1) {
            Err(e) => Err::<(Fragment, Seq<ScopeView>), CompileError>(e),
            Ok(value) => Ok(
                (
                    constant_code(ValueView::Path(path), k).with(value).with(
                        Fragment::one(Instruction::Publish),
                    ),
                    env,
                ),
            ),
        }),
{
    reveal_with_fuel(stmt_code, 1);
}

/// The code of `scene id body`.
pub proof fn scene_stmt_code(id: Seq<char>, body: StmtView, env: Seq<ScopeView>, at: nat, k: nat)
    ensures
        stmt_code(StmtView::Scene(id, Box::new(body)), env, at, k) == (if total_depth(env) + 2
            > usize::MAX {
            Err::<(Fragment, Seq<ScopeView>), CompileError>(CompileError::TooLarge)
        } else {
            match stmt_code(body, bound(bound(env, id), stop_name(id)), at + 4, k + 2) {
                Err(e) => Err(e),
                Ok((inner, after)) => Ok((scene_code(at, k, inner), after)),
            }
        }),
{
    reveal_with_fuel(stmt_code, 1);
    reveal_with_fuel(spawn_code, 1);
    reveal_with_fuel(block_code, 1);
}

/// The code of `start id` and of `stop id`.
pub proof fn call_code(id: Seq<char>, env: Seq<ScopeView>, at: nat, k: nat)
    ensures
        stmt_code(StmtView::Start(id), env, at, k) == (match pick_code(env, id) {
            Err(e) => Err::<(Fragment, Seq<ScopeView>), CompileError>(e),
            Ok(pick) => Ok((pick.with(Fragment::one(Instruction::Call)), env)),
        }),
        stmt_code(StmtView::Stop(id), env, at, k) == (match pick_code(env, stop_name(id)) {
            Err(e) => Err::<(Fragment, Seq<ScopeView>), CompileError>(e),
            Ok(pick) => Ok((pick.with(Fragment::one(Instruction::Call)), env)),
        }),
{
    reveal_with_fuel(stmt_code, 1);
}

/// Once a statement of a block has no code, the error stays with every
/// longer run of statements.
proof fn block_code_stays_err(
    stmts: Seq<StmtView>,
    n: nat,
    m: nat,
    env: Seq<ScopeView>,
    at: nat,
    k: nat,
)
    requires
        n <= m <= stmts.len(),
        block_code(stmts, n, env, at, k) is Err,
    ensures
        block_code(stmts, m, env, at, k) == block_code(stmts, n, env, at, k),
    decreases m,
{
    reveal_with_fuel(block_code, 1);
    if n < m {
        block_code_stays_err(stmts, n, (m - 1) as nat, env, at, k);
    }
}

/// Whether `r`, the code `after` and the scopes `scopes` are what lowering
/// the statement `s` gives, where the code was `before` and the scopes `env`.
pub open spec fn lowered(
    before: CodeView,
    env: Seq<ScopeView>,
    s: StmtView,
    r: Result<(), CompileError>,
    after: CodeView,
    scopes: Seq<ScopeView>,
) -> bool {
    match stmt_code(s, env, before.instructions.len(), before.constants.len()) {
        Ok((frag, next)) => r is Ok && after == before.with(frag) && scopes == next,
        Err(e) => r matches Err(f) && f == e,
    }
}

/// Whether `r` and the code `after` are what lowering the expression `e`
/// gives, where the code was `before`.
pub open spec fn evaluated(
    before: CodeView,
    env: Seq<ScopeView>,
    e: ExprView,
    r: Result<(), CompileError>,
    after: CodeView,
) -> bool {
    match expr_code(e, env, before.constants.len()) {
        Ok(frag) => r is Ok && after == before.with(frag),
        Err(e) => r matches Err(f) && f == e,
    }
}

/// The compiler: it gathers the code of a script.
pub struct Interpreter {
    code: Code,
}

impl View for Interpreter {
    type V = CodeView;

    closed spec fn view(&self) -> CodeView {
        self.code@
    }
}

impl Interpreter {
    /// Adds `value` to the pool and gives its index.
    fn add_constant(&mut self, value: Value) -> (k: usize)
        ensures
            k == old(self)@.constants.len(),
            final(self)@ == old(self)@.with(Fragment::constant(value@)),
    {
        self.code.constants.push(value);
        proof {
            same_code(self@, old(self)@.with(Fragment::constant(value@)));
        }
        self.code.constants.len() - 1
    }

    /// Adds `inst` to the code and gives its address.
    fn add_instruction(&mut self, inst: Instruction) -> (at: usize)
        ensures
            at == old(self)@.instructions.len(),
            final(self)@ == old(self)@.with(Fragment::one(inst)),
    {
        let at = self.code.instructions.len();
        self.code.instructions.push(inst);
        proof {
            same_code(self@, old(self)@.with(Fragment::one(inst)));
        }
        at
    }

    /// Adds `value` to the pool and the instruction that pushes it.
    fn add_push(&mut self, value: Value)
        ensures
            final(self)@ == old(self)@.with(
                constant_code(value@, old(self)@.constants.len()),
            ),
    {
        let k = self.add_constant(value);
        self.add_instruction(Instruction::Constant(k));
        proof {
            with_with(
                old(self)@,
                Fragment::constant(value@),
                Fragment::one(Instruction::Constant(k)),
            );
        }
    }

    /// How many instructions there are.
    fn len(&self) -> (n: usize)
        ensures
            n == self@.instructions.len(),
    {
        self.code.instructions.len()
    }

    /// Replaces the instruction at `at`.
    fn patch(&mut self, at: usize, inst: Instruction)
        requires
            at < old(self)@.instructions.len(),
        ensures
            final(self)@ == (CodeView {
                instructions: old(self)@.instructions.update(at as int, inst),
                constants: old(self)@.constants,
            }),
    {
        self.code.instructions[at] = inst;
        proof {
            same_code(
                self@,
                CodeView {
                    instructions: old(self)@.instructions.update(at as int, inst),
                    constants: old(self)@.constants,
                },
            );
        }
    }

    /// Replaces the constant with the index `k` by the address `ip`.
    fn patch_address(&mut self, k: usize, ip: usize)
        requires
            k < old(self)@.constants.len(),
        ensures
            final(self)@ == (CodeView {
                instructions: old(self)@.instructions,
                constants: old(self)@.constants.update(k as int, ValueView::Jump(ip)),
            }),
    {
        self.code.constants[k] = Value::Jump(ip);
        proof {
            same_code(
                self@,
                CodeView {
                    instructions: old(self)@.instructions,
                    constants: old(self)@.constants.update(k as int, ValueView::Jump(ip)),
                },
            );
        }
    }

    /// Adds the instruction that reads the name `id`.
    fn interpret_name(&mut self, env: &Env, id: &String) -> (r: Result<(), CompileError>)
        requires
            env.well_formed(),
        ensures
            match pick_code(env@, id@) {
                Ok(frag) => r is Ok && final(self)@ == old(self)@.with(frag),
                Err(e) => r matches Err(f) && f == e,
            },
    {
        let depth = env.get_depth(id);
        if depth == 0 {
            return Err(CompileError::UndefinedIdentifier);
        }
        self.add_instruction(Instruction::Pick(depth - 1));
        Ok(())
    }

    /// Adds the code of a literal.
    fn interpret_literal(&mut self, expr: &Expr) -> (r: Result<(), CompileError>)
        ensures
            match literal_of(expr@) {
                Ok(value) => r is Ok && final(self)@ == old(self)@.with(
                    constant_code(value, old(self)@.constants.len()),
                ),
                Err(e) => r matches Err(f) && f == e,
            },
    {
        match Value::from_expr(expr) {
            Err(e) => Err(e),
            Ok(value) => {
                self.add_push(value);
                Ok(())
            },
        }
    }

    /// Adds the code of two operands and their operator.
    fn interpret_binary(&mut self, env: &Env, expr: &Expr) -> (r: Result<(), CompileError>)
        requires
            env.well_formed(),
            expr is Binary,
        ensures
            evaluated(old(self)@, env@, expr@, r, final(self)@),
        decreases expr, 0nat,
    {
        let ghost start = self@;
        match expr {
            Expr::Binary(lhs, op, rhs) => {
                proof {
                    binary_code(lhs@, *op, rhs@, env@, start.constants.len());
                }
                match self.interpret_expr(env, lhs) {
                    Err(e) => {
                        return Err(e);
                    },
                    Ok(()) => {},
                }
                let ghost left = expr_code(lhs@, env@, start.constants.len())->Ok_0;
                match self.interpret_expr(env, rhs) {
                    Err(e) => {
                        return Err(e);
                    },
                    Ok(()) => {},
                }
                let ghost right = expr_code(
                    rhs@,
                    env@,
                    start.constants.len() + left.constants.len(),
                )->Ok_0;
                match op {
                    BinaryOpcode::Eql => {
                        self.add_instruction(Instruction::Equal);
                        proof {
                            with_with(start, left, right);
                            with_with(start, left.with(right), Fragment::one(Instruction::Equal));
                        }
                        Ok(())
                    },
                    _ => Err(CompileError::UnsupportedOperator),
                }
            },
            _ => Ok(()),
        }
    }

    /// Adds the code of `init as id in cont`.
    fn interpret_as(&mut self, env: &Env, expr: &Expr) -> (r: Result<(), CompileError>)
        requires
            env.well_formed(),
            expr is As,
        ensures
            evaluated(old(self)@, env@, expr@, r, final(self)@),
        decreases expr, 0nat,
    {
        let ghost start = self@;
        match expr {
            Expr::As(init, id, cont) => {
                proof {
                    as_code(init@, id@, cont@, env@, start.constants.len());
                }
                match self.interpret_expr(env, init) {
                    Err(e) => {
                        return Err(e);
                    },
                    Ok(()) => {},
                }
                let ghost first = expr_code(init@, env@, start.constants.len())->Ok_0;
                if !env.has_room() {
                    return Err(CompileError::TooLarge);
                }
                let mut block_env = env.nest();
                block_env.bind(id.clone());
                match self.interpret_expr(&block_env, cont) {
                    Err(e) => {
                        return Err(e);
                    },
                    Ok(()) => {},
                }
                let ghost second = expr_code(
                    cont@,
                    bound(nested(env@), id@),
                    start.constants.len() + first.constants.len(),
                )->Ok_0;
                self.add_instruction(Instruction::Swap);
                self.add_instruction(Instruction::Pop);
                proof {
                    with_with(start, first, second);
                    with_with(start, first.with(second), Fragment::one(Instruction::Swap));
                    with_with(
                        start,
                        first.with(second).with(Fragment::one(Instruction::Swap)),
                        Fragment::one(Instruction::Pop),
                    );
                }
                Ok(())
            },
            _ => Ok(()),
        }
    }

    /// Adds the code of `obj.prop`.
    fn interpret_index(&mut self, env: &Env, expr: &Expr) -> (r: Result<(), CompileError>)
        requires
            env.well_formed(),
            expr is Index,
        ensures
            evaluated(old(self)@, env@, expr@, r, final(self)@),
        decreases expr, 0nat,
    {
        let ghost start = self@;
        match expr {
            Expr::Index(obj, prop) => {
                proof {
                    index_code(obj@, prop@, env@, start.constants.len());
                }
                match self.interpret_expr(env, obj) {
                    Err(e) => {
                        return Err(e);
                    },
                    Ok(()) => {},
                }
                let ghost first = expr_code(obj@, env@, start.constants.len())->Ok_0;
                self.add_push(Value::Str(prop.clone()));
                self.add_instruction(Instruction::Index);
                proof {
                    let push = constant_code(
                        ValueView::Str(prop@),
                        start.constants.len() + first.constants.len(),
                    );
                    with_with(start, first, push);
                    with_with(start, first.with(push), Fragment::one(Instruction::Index));
                }
                Ok(())
            },
            _ => Ok(()),
        }
    }

    /// Adds the code that leaves the value of `expr` on top of the stack.
    fn interpret_expr(&mut self, env: &Env, expr: &Expr) -> (r: Result<(), CompileError>)
        requires
            env.well_formed(),
        ensures
            evaluated(old(self)@, env@, expr@, r, final(self)@),
        decreases expr, 1nat,
    {
        let ghost k = self@.constants.len();
        match expr {
            Expr::Ident(id) => {
                proof {
                    name_code(id@, env@, k);
                }
                self.interpret_name(env, id)
            },
            Expr::Binary(_, _, _) => self.interpret_binary(env, expr),
            Expr::Path(path) => {
                self.add_push(Value::Path(path.clone()));
                self.add_instruction(Instruction::Get);
                proof {
                    path_code(path@, env@, k);
                    with_with(
                        old(self)@,
                        constant_code(ValueView::Path(path@), k),
                        Fragment::one(Instruction::Get),
                    );
                }
                Ok(())
            },
            Expr::As(_, _, _) => self.interpret_as(env, expr),
            Expr::Index(_, _) => self.interpret_index(env, expr),
            _ => {
                proof {
                    literal_code(expr@, env@, k);
                }
                self.interpret_literal(expr)
            },
        }
    }

    /// Adds the code of an expression and one instruction after it.
    fn interpret_then(&mut self, env: &Env, expr: &Expr, inst: Instruction) -> (r: Result<
        (),
        CompileError,
    >)
        requires
            env.well_formed(),
        ensures
            match expr_code(expr@, env@, old(self)@.constants.len()) {
                Ok(frag) => r is Ok && final(self)@ == old(self)@.with(
                    frag.with(Fragment::one(inst)),
                ),
                Err(e) => r matches Err(f) && f == e,
            },
    {
        match self.interpret_expr(env, expr) {
            Err(e) => Err(e),
            Ok(()) => {
                self.add_instruction(inst);
                proof {
                    with_with(
                        old(self)@,
                        expr_code(expr@, env@, old(self)@.constants.len())->Ok_0,
                        Fragment::one(inst),
                    );
                }
                Ok(())
            },
        }
    }

    /// Adds the code that calls what the name `id` stands for.
    fn interpret_call(&mut self, env: &Env, id: &String) -> (r: Result<(), CompileError>)
        requires
            env.well_formed(),
        ensures
            match pick_code(env@, id@) {
                Ok(pick) => r is Ok && final(self)@ == old(self)@.with(
                    pick.with(Fragment::one(Instruction::Call)),
                ),
                Err(e) => r matches Err(f) && f == e,
            },
    {
        match self.interpret_name(env, id) {
            Err(e) => Err(e),
            Ok(()) => {
                self.add_instruction(Instruction::Call);
                proof {
                    with_with(
                        old(self)@,
                        pick_code(env@, id@)->Ok_0,
                        Fragment::one(Instruction::Call),
                    );
                }
                Ok(())
            },
        }
    }

    /// Adds the code of `set [path] expr`.
    fn interpret_publish(&mut self, env: &Env, path: &String, expr: &Expr) -> (r: Result<
        (),
        CompileError,
    >)
        requires
            env.well_formed(),
        ensures
            match expr_code(expr@, env@, old(self)@.constants.len() + 1) {
                Ok(value) => r is Ok && final(self)@ == old(self)@.with(
                    constant_code(ValueView::Path(path@), old(self)@.constants.len()).with(
                        value,
                    ).with(Fragment::one(Instruction::Publish)),
                ),
                Err(e) => r matches Err(f) && f == e,
            },
    {
        let ghost start = self@;
        self.add_push(Value::Path(path.clone()));
        let ghost push = constant_code(ValueView::Path(path@), start.constants.len());
        match self.interpret_expr(env, expr) {
            Err(e) => Err(e),
            Ok(()) => {
                let ghost value = expr_code(expr@, env@, start.constants.len() + 1)->Ok_0;
                self.add_instruction(Instruction::Publish);
                proof {
                    with_with(start, push, value);
                    with_with(start, push.with(value), Fragment::one(Instruction::Publish));
                }
                Ok(())
            },
        }
    }

    /// Adds the code of the statements of a block and the pops that end it.
    fn interpret_block(&mut self, env: &mut Env, stmt: &Stmt) -> (r: Result<(), CompileError>)
        requires
            old(env).well_formed(),
            stmt is Block,
        ensures
            lowered(old(self)@, old(env)@, stmt@, r, final(self)@, final(env)@),
            r is Ok ==> final(env).well_formed(),
        decreases stmt, 0nat,
    {
        let ghost start = self@;
        let ghost at = start.instructions.len();
        let ghost k = start.constants.len();
        match stmt {
            Stmt::Block(stmts) => {
                proof {
                    block_view(*stmts);
                }
                let ghost view = stmts_view(stmts@);
                let mut block_env = env.nest();
                let ghost outer = env@;
                let ghost mut frag = Fragment::empty();
                proof {
                    with_empty(start);
                    block_code_of(view, 0, nested(outer), at, k);
                }
                let mut i: usize = 0;
                while i < stmts.len()
                    invariant
                        i <= stmts.len(),
                        *stmt == Stmt::Block(*stmts),
                        stmt@ == StmtView::Block(view),
                        outer == old(env)@,
                        start == old(self)@,
                        view == stmts_view(stmts@),
                        block_env.well_formed(),
                        block_code(view, i as nat, nested(outer), at, k) == Ok::<
                            (Fragment, Seq<ScopeView>),
                            CompileError,
                        >((frag, block_env@)),
                        self@ == start.with(frag),
                        at == start.instructions.len(),
                        k == start.constants.len(),
                    decreases stmts.len() - i,
                {
                    proof {
                        assert(decreases_to!(*stmt => stmt->Block_0));
                        assert(decreases_to!(*stmts => stmts[i as int]));
                    }
                    assert(view[i as int] == stmts@[i as int]@);
                    proof {
                        block_code_of(view, (i + 1) as nat, nested(outer), at, k);
                    }
                    match self.interpret_stmt(&mut block_env, &stmts[i]) {
                        Err(e) => {
                            proof {
                                braces_code(view, outer, at, k);
                                block_code_stays_err(
                                    view,
                                    (i + 1) as nat,
                                    stmts@.len() as nat,
                                    nested(outer),
                                    at,
                                    k,
                                );
                            }
                            return Err(e);
                        },
                        Ok(()) => {},
                    }
                    proof {
                        let next = stmt_code(
                            view[i as int],
                            block_code(view, i as nat, nested(outer), at, k)->Ok_0.1,
                            at + frag.code.len(),
                            k + frag.constants.len(),
                        )->Ok_0.0;
                        with_with(start, frag, next);
                        frag = frag.with(next);
                    }
                    i += 1;
                }
                let depth = block_env.depth();
                let mut n: usize = 0;
                proof {
                    one_more_pop(0);
                    with_empty(start.with(frag));
                }
                while n < depth
                    invariant
                        n <= depth,
                        self@ == start.with(frag).with(Fragment::of(pops(n as nat))),
                    decreases depth - n,
                {
                    self.add_instruction(Instruction::Pop);
                    proof {
                        one_more_pop(n as nat);
                        with_with(
                            start.with(frag),
                            Fragment::of(pops(n as nat)),
                            Fragment::one(Instruction::Pop),
                        );
                    }
                    n += 1;
                }
                proof {
                    with_with(start, frag, Fragment::of(pops(depth as nat)));
                    braces_code(view, outer, at, k);
                }
                Ok(())
            },
            _ => Ok(()),
        }
    }

    /// Adds the code of a statement that starts a task.
    fn interpret_task(&mut self, env: &mut Env, stmt: &Stmt) -> (r: Result<(), CompileError>)
        requires
            old(env).well_formed(),
            stmt is When || stmt is Wait || stmt is At,
        ensures
            lowered(old(self)@, old(env)@, stmt@, r, final(self)@, final(env)@),
            r is Ok ==> final(env).well_formed(),
        decreases stmt, 0nat,
    {
        let ghost start = self@;
        let ghost at = start.instructions.len();
        let (head, body) = match stmt {
            Stmt::When(e, body) => (e, body),
            Stmt::Wait(e, body) => (e, body),
            Stmt::At(e, body) => (e, body),
            _ => {
                return Ok(());
            },
        };
        proof {
            starts_task(stmt@, env@, at, start.constants.len());
            spawn_code_of(stmt@, head@, body@, env@, at, start.constants.len());
        }
        assert(stmt_code(stmt@, env@, at, start.constants.len()) == spawn_code(
            stmt@,
            head@,
            body@,
            env@,
            at,
            start.constants.len(),
        ));
        let spawn_ip = self.add_instruction(Instruction::Spawn(usize::MAX));
        let ghost spawned = self@;
        assert(spawn_ip < self.code.instructions.len());
        match self.interpret_expr(env, head) {
            Err(e) => {
                return Err(e);
            },
            Ok(()) => {},
        }
        let ghost first = expr_code(head@, env@, start.constants.len())->Ok_0;
        let test = match stmt {
            Stmt::When(_, _) => Instruction::JmpNot(spawn_ip + 1),
            Stmt::Wait(_, _) => Instruction::Wait,
            _ => Instruction::At,
        };
        self.add_instruction(test);
        let ghost scopes = env@;
        match self.interpret_stmt(env, body) {
            Err(e) => {
                return Err(e);
            },
            Ok(()) => {},
        }
        let ghost inner = stmt_code(
            body@,
            scopes,
            at + first.code.len() + 2,
            start.constants.len() + first.constants.len(),
        )->Ok_0.0;
        let last = match stmt {
            Stmt::Wait(_, _) => Instruction::Term,
            _ => Instruction::Jump(spawn_ip + 1),
        };
        self.add_instruction(last);
        let end = self.len();
        self.patch(spawn_ip, Instruction::Spawn(end));
        proof {
            let tail = first.with(Fragment::one(test)).with(inner).with(Fragment::one(last));
            with_with(spawned, first, Fragment::one(test));
            with_with(spawned, first.with(Fragment::one(test)), inner);
            with_with(
                spawned,
                first.with(Fragment::one(test)).with(inner),
                Fragment::one(last),
            );
            first_replaced(
                start,
                Instruction::Spawn(usize::MAX),
                tail,
                Instruction::Spawn(end),
            );
        }
        Ok(())
    }

    /// Adds the code of a scene: its two addresses, its body and its stop
    /// routine.
    fn interpret_scene(&mut self, env: &mut Env, stmt: &Stmt) -> (r: Result<(), CompileError>)
        requires
            old(env).well_formed(),
            stmt is Scene,
        ensures
            lowered(old(self)@, old(env)@, stmt@, r, final(self)@, final(env)@),
            r is Ok ==> final(env).well_formed(),
        decreases stmt, 0nat,
    {
        let ghost start = self@;
        let ghost at = start.instructions.len();
        let ghost k = start.constants.len();
        match stmt {
            Stmt::Scene(id, body) => {
                proof {
                    scene_stmt_code(id@, body@, env@, at, k);
                }
                if !env.has_room() {
                    return Err(CompileError::TooLarge);
                }
                env.bind(id.clone());
                if !env.has_room() {
                    return Err(CompileError::TooLarge);
                }
                let mut stop = id.clone();
                stop.append(" stop");
                env.bind(stop);
                let start_const = self.add_constant(Value::Jump(usize::MAX));
                let stop_const = self.add_constant(Value::Jump(usize::MAX));
                self.add_instruction(Instruction::Constant(start_const));
                self.add_instruction(Instruction::Constant(stop_const));
                let continue_jump = self.add_instruction(Instruction::Jump(usize::MAX));
                let start_ip = self.add_instruction(Instruction::SceneContext);
                let ghost opened = self@;
                let ghost scopes = env@;
                match self.interpret_stmt(env, body) {
                    Err(e) => {
                        return Err(e);
                    },
                    Ok(()) => {},
                }
                let ghost inner = stmt_code(body@, scopes, at + 4, k + 2)->Ok_0.0;
                self.add_instruction(Instruction::Return);
                let stop_ip = self.add_instruction(Instruction::Stop);
                self.add_instruction(Instruction::Return);
                let end = self.len();
                self.patch_address(start_const, start_ip);
                self.patch_address(stop_const, stop_ip);
                self.patch(continue_jump, Instruction::Jump(end));
                proof {
                    same_code(self@, start.with(scene_code(at, k, inner)));
                }
                Ok(())
            },
            _ => Ok(()),
        }
    }

    /// Adds the code of a statement and takes the names that it binds into
    /// the scope.
    fn interpret_stmt(&mut self, env: &mut Env, stmt: &Stmt) -> (r: Result<(), CompileError>)
        requires
            old(env).well_formed(),
        ensures
            lowered(old(self)@, old(env)@, stmt@, r, final(self)@, final(env)@),
            r is Ok ==> final(env).well_formed(),
        decreases stmt, 1nat,
    {
        let ghost at = self@.instructions.len();
        let ghost k = self@.constants.len();
        match stmt {
            Stmt::Print(expr) => {
                proof {
                    print_code(expr@, env@, at, k);
                }
                self.interpret_then(env, expr, Instruction::Print)
            },
            Stmt::Let(id, expr) => {
                proof {
                    let_code(id@, expr@, env@, at, k);
                }
                match self.interpret_expr(env, expr) {
                    Err(e) => Err(e),
                    Ok(()) => {
                        if env.has_room() {
                            env.bind(id.clone());
                            Ok(())
                        } else {
                            Err(CompileError::TooLarge)
                        }
                    },
                }
            },
            Stmt::Block(_) => self.interpret_block(env, stmt),
            Stmt::When(_, _) => self.interpret_task(env, stmt),
            Stmt::Wait(_, _) => self.interpret_task(env, stmt),
            Stmt::At(_, _) => self.interpret_task(env, stmt),
            Stmt::Publish(path, expr) => {
                proof {
                    publish_code(path@, expr@, env@, at, k);
                }
                self.interpret_publish(env, path, expr)
            },
            Stmt::Expr(expr) => {
                proof {
                    drop_code(expr@, env@, at, k);
                }
                self.interpret_then(env, expr, Instruction::Pop)
            },
            Stmt::Scene(_, _) => self.interpret_scene(env, stmt),
            Stmt::Start(id) => {
                proof {
                    call_code(id@, env@, at, k);
                }
                self.interpret_call(env, id)
            },
            Stmt::Stop(id) => {
                proof {
                    call_code(id@, env@, at, k);
                }
                let mut stop = id.clone();
                stop.append(" stop");
                self.interpret_call(env, &stop)
            },
        }
    }

    /// The code of the script `ast`.
    pub fn compile(ast: &Stmt) -> (r: Result<Code, CompileError>)
        ensures
            match program(ast@) {
                Ok(code) => r matches Ok(c) && c@ == code,
                Err(e) => r matches Err(f) && f == e,
            },
            r matches Ok(c) ==> self_contained(c@),
    {
        let mut interpreter = Interpreter {
            code: Code { instructions: Vec::new(), constants: Vec::new() },
        };
        let ghost start = interpreter@;
        proof {
            same_code(start, CodeView { instructions: Seq::empty(), constants: Seq::empty() });
        }
        let mut env = Env::new();
        match interpreter.interpret_stmt(&mut env, ast) {
            Err(e) => Err(e),
            Ok(()) => {
                interpreter.add_instruction(Instruction::Term);
                proof {
                    let frag = stmt_code(ast@, root_scopes(), 0, 0)->Ok_0.0;
                    same_code(
                        start.with(frag),
                        CodeView { instructions: frag.code, constants: frag.constants },
                    );
                }
                let instructions = interpreter.code.instructions.len();
                let constants = interpreter.code.constants.len();
                proof {
                    assert(interpreter.code@.instructions.len() == instructions);
                    assert(interpreter.code@.constants.len() == constants);
                    compiled_code_points_within(ast@, interpreter.code@);
                }
                Ok(interpreter.code)
            },
        }
    }
}

} // verus!
