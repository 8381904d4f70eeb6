//! How compiled code moves the operand stack: how deep it is after a piece
//! of code, and what of it the code leaves as it was.
//!
//! The depth is followed along the path that the task which enters a piece of
//! code takes to its end: a spawn and a jump lead on to their address, a call
//! counts as the pop of the address it calls, since what a scene's routines
//! push they pop before they return, and a read of a topic counts once its
//! value has arrived.

use crate::ast::{ExprView, StmtView};
use crate::clock::Clock;
use crate::compiler::{
    as_code, binary_code, block_code, block_code_of, braces_code, call_code, constant_code,
    drop_code, expr_code, index_code, let_code, literal_code, name_code, path_code, pick_code,
    pops, print_code, publish_code, scene_code, scene_stmt_code, spawn_code, spawn_code_of,
    starts_task, stmt_code, stop_name, task_code, task_last, task_test, CodeView, Fragment,
    Instruction,
};
use crate::literal::literal_of;
use crate::scope::{bound, has_room, nested, total_depth, ScopeView};
use crate::value::ValueView;
use crate::vm::{receive_spec, step_spec, ContextView, Effect};
use vstd::prelude::*;

verus! {

/// By how much an instruction changes the depth of the stack of the task that
/// runs it and goes on.
pub open spec fn stack_effect(inst: Instruction) -> int {
    match inst {
        Instruction::Constant(_) => 1,
        Instruction::Pick(_) => 1,
        Instruction::Print => -1,
        Instruction::Pop => -1,
        Instruction::JmpNot(_) => -1,
        Instruction::Call => -1,
        Instruction::Wait => -1,
        Instruction::At => -1,
        Instruction::Equal => -1,
        Instruction::Index => -1,
        Instruction::Publish => -2,
        _ => 0,
    }
}

/// One step of a task changes the depth of its stack by the effect of the
/// instruction. A read of a topic is one value short of its effect until the
/// payload is received, which pushes it.
pub proof fn step_moves_stack(ctx: ContextView, code: CodeView, clock: Clock)
    requires
        step_spec(ctx, code, clock) is Ok,
    ensures
        ctx.ip < code.instructions.len(),
        step_spec(ctx, code, clock)->Ok_0.1.stack.len() == ctx.stack.len() + stack_effect(
            code.instructions[ctx.ip as int],
        ) - (if code.instructions[ctx.ip as int] is Get {
            1int
        } else {
            0int
        }),
        step_spec(ctx, code, clock)->Ok_0.0 matches Effect::Spawn(child) ==> child.stack
            == ctx.stack,
{
}

/// By how much the depth of the stack changes along the path from the
/// address `pc` to the address `end`, if the path leads there: the sum of the
/// effects of the instructions on it. A spawn and a jump lead forward to their
/// address. No path leads through a conditional jump, a return or the end of
/// a task, nor backward.
pub open spec fn path_effect(code: Seq<Instruction>, pc: nat, end: nat) -> Option<int>
    decreases end - pc,
{
    if pc >= end {
        if pc == end {
            Some(0)
        } else {
            None
        }
    } else if pc >= code.len() {
        None
    } else {
        match code[pc as int] {
            Instruction::Spawn(r) => if pc < r <= end {
                path_effect(code, r as nat, end)
            } else {
                None
            },
            Instruction::Jump(r) => if pc < r <= end {
                path_effect(code, r as nat, end)
            } else {
                None
            },
            Instruction::JmpNot(_) => None,
            Instruction::Return => None,
            Instruction::Term => None,
            inst => match path_effect(code, pc + 1, end) {
                Some(d) => Some(stack_effect(inst) + d),
                None => None,
            },
        }
    }
}

/// Whether the instructions `part` stand in `code` from the address `at` on.
pub open spec fn placed(code: Seq<Instruction>, at: nat, part: Seq<Instruction>) -> bool {
    &&& at + part.len() <= code.len()
    &&& forall|i: int| 0 <= i < part.len() ==> code[at + i] == #[trigger] part[i]
}

/// How many values a statement leaves on the stack for the statements after
/// it: one for a `let`, two for a scene, and what the statement that it holds
/// leaves.
pub open spec fn binds(s: StmtView) -> nat
    decreases s,
{
    match s {
        StmtView::Let(_, _) => 1,
        StmtView::Scene(_, body) => 2 + binds(*body),
        StmtView::When(_, body) => binds(*body),
        StmtView::Wait(_, body) => binds(*body),
        StmtView::At(_, body) => binds(*body),
        _ => 0,
    }
}

/// Whether what a statement binds lies on the path of the task that runs it:
/// the statement under a `when`, a `wait`, an `at` or a scene binds nothing,
/// and the statements of a block are scoped themselves.
pub open spec fn scoped(s: StmtView) -> bool
    decreases s,
{
    match s {
        StmtView::Block(stmts) => forall|i: int|
            0 <= i < stmts.len() ==> scoped(#[trigger] stmts[i]),
        StmtView::Scene(_, body) => binds(*body) == 0,
        StmtView::When(_, body) => binds(*body) == 0,
        StmtView::Wait(_, body) => binds(*body) == 0,
        StmtView::At(_, body) => binds(*body) == 0,
        _ => true,
    }
}

/// How many values an instruction takes off the stack before it puts
/// anything there. What lies below them it leaves as it is.
pub open spec fn takes(inst: Instruction) -> int {
    match inst {
        Instruction::Print => 1,
        Instruction::Pop => 1,
        Instruction::JmpNot(_) => 1,
        Instruction::Call => 1,
        Instruction::Wait => 1,
        Instruction::At => 1,
        Instruction::Get => 1,
        Instruction::Swap => 2,
        Instruction::Equal => 2,
        Instruction::Index => 2,
        Instruction::Publish => 2,
        _ => 0,
    }
}

/// The smaller of two numbers.
pub open spec fn lesser(a: int, b: int) -> int {
    if a <= b {
        a
    } else {
        b
    }
}

/// How far into the stack the path from the address `pc` to the address
/// `end` reaches, counted from the top of the stack at `pc`: zero if it takes
/// only what it has pushed itself, and -n if it takes `n` of the values that
/// were there before.
pub open spec fn path_low(code: Seq<Instruction>, pc: nat, end: nat) -> int
    decreases end - pc,
{
    if pc >= end || pc >= code.len() {
        0
    } else {
        match code[pc as int] {
            Instruction::Spawn(r) => if pc < r <= end {
                path_low(code, r as nat, end)
            } else {
                0
            },
            Instruction::Jump(r) => if pc < r <= end {
                path_low(code, r as nat, end)
            } else {
                0
            },
            inst => lesser(-takes(inst), stack_effect(inst) + path_low(code, pc + 1, end)),
        }
    }
}

/// No path reaches above the top of the stack.
pub proof fn low_is_not_above(code: Seq<Instruction>, pc: nat, end: nat)
    ensures
        path_low(code, pc, end) <= 0,
    decreases end - pc,
{
    if pc < end && pc < code.len() {
        match code[pc as int] {
            Instruction::Spawn(r) => {
                if pc < r <= end {
                    low_is_not_above(code, r as nat, end);
                }
            },
            Instruction::Jump(r) => {
                if pc < r <= end {
                    low_is_not_above(code, r as nat, end);
                }
            },
            _ => {},
        }
    }
}

/// No path reaches less far into the stack than where it ends.
pub proof fn low_is_below_effect(code: Seq<Instruction>, pc: nat, end: nat)
    requires
        path_effect(code, pc, end) is Some,
    ensures
        path_low(code, pc, end) <= path_effect(code, pc, end)->0,
    decreases end - pc,
{
    if pc < end && pc < code.len() {
        match code[pc as int] {
            Instruction::Spawn(r) => {
                low_is_below_effect(code, r as nat, end);
            },
            Instruction::Jump(r) => {
                low_is_below_effect(code, r as nat, end);
            },
            _ => {
                low_is_below_effect(code, pc + 1, end);
            },
        }
    }
}

/// Two stacks that agree in their first `n` values agree in their first `m`,
/// where `m` is at most `n`.
proof fn prefix_of_prefix(a: Seq<ValueView>, b: Seq<ValueView>, n: int, m: int)
    requires
        0 <= m <= n,
        n <= a.len(),
        n <= b.len(),
        a.take(n) == b.take(n),
    ensures
        a.take(m) == b.take(m),
{
    assert forall|i: int| 0 <= i < m implies a.take(m)[i] == b.take(m)[i] by {
        assert(a.take(n)[i] == b.take(n)[i]);
    }
    assert(a.take(m) =~= b.take(m));
}

/// A path to `b` and a path from `b` make one path, and their effects add up.
/// The whole reaches as far into the stack as the part that reaches further.
pub proof fn paths_join(code: Seq<Instruction>, a: nat, b: nat, c: nat)
    requires
        a <= b <= c,
        path_effect(code, a, b) is Some,
        path_effect(code, b, c) is Some,
    ensures
        path_effect(code, a, c) == Some(path_effect(code, a, b)->0 + path_effect(code, b, c)->0),
        path_low(code, a, c) == lesser(
            path_low(code, a, b),
            path_effect(code, a, b)->0 + path_low(code, b, c),
        ),
    decreases b - a,
{
    low_is_not_above(code, b, c);
    if a < b {
        match code[a as int] {
            Instruction::Spawn(r) => {
                paths_join(code, r as nat, b, c);
            },
            Instruction::Jump(r) => {
                paths_join(code, r as nat, b, c);
            },
            Instruction::JmpNot(_) => {},
            Instruction::Return => {},
            Instruction::Term => {},
            _ => {
                paths_join(code, a + 1, b, c);
            },
        }
    }
}

/// The path through one instruction that leads to the next has the effect of
/// the instruction.
pub proof fn path_through_one(code: Seq<Instruction>, at: nat, inst: Instruction)
    requires
        at < code.len(),
        code[at as int] == inst,
        !(inst is Spawn),
        !(inst is Jump),
        !(inst is JmpNot),
        !(inst is Return),
        !(inst is Term),
    ensures
        path_effect(code, at, at + 1) == Some(stack_effect(inst)),
        path_low(code, at, at + 1) == -takes(inst),
{
    assert(path_effect(code, at + 1, at + 1) == Some(0int));
    assert(path_low(code, at + 1, at + 1) == 0);
}

/// Where two runs of instructions stand one after the other, each stands at
/// its place.
pub proof fn placed_parts(code: Seq<Instruction>, at: nat, a: Seq<Instruction>, b: Seq<Instruction>)
    requires
        placed(code, at, a + b),
    ensures
        placed(code, at, a),
        placed(code, at + a.len(), b),
{
    assert forall|i: int| 0 <= i < a.len() implies code[at + i] == #[trigger] a[i] by {
        assert((a + b)[i] == a[i]);
    }
    assert forall|i: int| 0 <= i < b.len() implies code[at + a.len() + i] == #[trigger] b[i] by {
        assert((a + b)[a.len() + i] == b[i]);
    }
}

/// The path through the code that pushes a constant pushes one value.
proof fn constant_path(code: Seq<Instruction>, at: nat, value: crate::value::ValueView, k: nat)
    requires
        placed(code, at, constant_code(value, k).code),
    ensures
        constant_code(value, k).code.len() == 1,
        path_effect(code, at, at + 1) == Some(1int),
        path_low(code, at, at + 1) == 0,
{
    let part = constant_code(value, k).code;
    assert(part =~= seq![Instruction::Constant(k as usize)]);
    assert(code[at as int] == part[0]);
    path_through_one(code, at, Instruction::Constant(k as usize));
}

/// The path through the instruction that reads a name pushes one value.
proof fn pick_path(code: Seq<Instruction>, at: nat, env: Seq<ScopeView>, id: Seq<char>)
    requires
        pick_code(env, id) is Ok,
        placed(code, at, pick_code(env, id)->Ok_0.code),
    ensures
        pick_code(env, id)->Ok_0.code.len() == 1,
        path_effect(code, at, at + 1) == Some(1int),
        path_low(code, at, at + 1) == 0,
{
    let part = pick_code(env, id)->Ok_0.code;
    assert(code[at as int] == part[0]);
    path_through_one(code, at, part[0]);
}

/// Evaluating an expression leaves the stack one value deeper: the path
/// through the code of any expression, from its first instruction to the one
/// after its last, has the effect of one push, and takes nothing that was on
/// the stack before. So it is with `init as id in cont`: the value that `id`
/// stands for is gone when the value of `cont` is on top.
pub proof fn expression_pushes_one(
    e: ExprView,
    env: Seq<ScopeView>,
    k: nat,
    code: Seq<Instruction>,
    at: nat,
)
    requires
        expr_code(e, env, k) is Ok,
        placed(code, at, expr_code(e, env, k)->Ok_0.code),
    ensures
        path_effect(code, at, at + expr_code(e, env, k)->Ok_0.code.len()) == Some(1int),
        path_low(code, at, at + expr_code(e, env, k)->Ok_0.code.len()) == 0,
    decreases e,
{
    let frag = expr_code(e, env, k)->Ok_0;
    match e {
        ExprView::Ident(id) => {
            name_code(id, env, k);
            pick_path(code, at, env, id);
        },
        ExprView::Binary(lhs, op, rhs) => {
            binary_code(*lhs, op, *rhs, env, k);
            let left = expr_code(*lhs, env, k)->Ok_0;
            let right = expr_code(*rhs, env, k + left.constants.len())->Ok_0;
            let last = seq![Instruction::Equal];
            assert(frag.code =~= left.code + (right.code + last));
            placed_parts(code, at, left.code, right.code + last);
            placed_parts(code, at + left.code.len(), right.code, last);
            expression_pushes_one(*lhs, env, k, code, at);
            let mid = (at + left.code.len()) as nat;
            expression_pushes_one(*rhs, env, k + left.constants.len(), code, mid);
            let end = (mid + right.code.len()) as nat;
            assert(code[end as int] == last[0]);
            path_through_one(code, end, Instruction::Equal);
            paths_join(code, at, mid, end);
            paths_join(code, at, end, end + 1);
        },
        ExprView::Path(path) => {
            path_code(path, env, k);
            let push = constant_code(crate::value::ValueView::Path(path), k);
            let last = seq![Instruction::Get];
            assert(frag.code =~= push.code + last);
            placed_parts(code, at, push.code, last);
            constant_path(code, at, crate::value::ValueView::Path(path), k);
            assert(code[(at + 1) as int] == last[0]);
            path_through_one(code, at + 1, Instruction::Get);
            paths_join(code, at, at + 1, at + 2);
        },
        ExprView::As(init, id, cont) => {
            as_code(*init, id, *cont, env, k);
            let first = expr_code(*init, env, k)->Ok_0;
            let second = expr_code(*cont, bound(nested(env), id), k + first.constants.len())->Ok_0;
            let swap = seq![Instruction::Swap];
            let pop = seq![Instruction::Pop];
            assert(frag.code =~= first.code + (second.code + (swap + pop)));
            placed_parts(code, at, first.code, second.code + (swap + pop));
            let mid = (at + first.code.len()) as nat;
            placed_parts(code, mid, second.code, swap + pop);
            let end = (mid + second.code.len()) as nat;
            placed_parts(code, end, swap, pop);
            expression_pushes_one(*init, env, k, code, at);
            expression_pushes_one(
                *cont,
                bound(nested(env), id),
                k + first.constants.len(),
                code,
                mid,
            );
            assert(code[end as int] == swap[0]);
            assert(code[(end + 1) as int] == pop[0]);
            path_through_one(code, end, Instruction::Swap);
            path_through_one(code, end + 1, Instruction::Pop);
            paths_join(code, at, mid, end);
            paths_join(code, at, end, end + 1);
            paths_join(code, at, end + 1, end + 2);
        },
        ExprView::Index(obj, prop) => {
            index_code(*obj, prop, env, k);
            let first = expr_code(*obj, env, k)->Ok_0;
            let push = constant_code(
                crate::value::ValueView::Str(prop),
                k + first.constants.len(),
            );
            let last = seq![Instruction::Index];
            assert(frag.code =~= first.code + (push.code + last));
            placed_parts(code, at, first.code, push.code + last);
            let mid = (at + first.code.len()) as nat;
            placed_parts(code, mid, push.code, last);
            expression_pushes_one(*obj, env, k, code, at);
            constant_path(code, mid, crate::value::ValueView::Str(prop), k + first.constants.len());
            assert(code[(mid + 1) as int] == last[0]);
            path_through_one(code, mid + 1, Instruction::Index);
            paths_join(code, at, mid, mid + 1);
            paths_join(code, at, mid + 1, mid + 2);
        },
        _ => {
            literal_code(e, env, k);
            constant_path(code, at, literal_of(e)->Ok_0, k);
        },
    }
}

/// How many values the first `n` statements of a block leave on the stack.
pub open spec fn binds_sum(stmts: Seq<StmtView>, n: nat) -> nat
    decreases n,
{
    if n == 0 || n > stmts.len() {
        0
    } else {
        binds_sum(stmts, (n - 1) as nat) + binds(stmts[n - 1])
    }
}

/// Binding a name makes the innermost scope one value deeper and leaves the
/// number of scopes.
proof fn bound_is_deeper(env: Seq<ScopeView>, id: Seq<char>)
    requires
        env.len() >= 1,
        has_room(env),
    ensures
        bound(env, id).len() == env.len(),
        bound(env, id).last().depth == env.last().depth + 1,
        total_depth(bound(env, id)) == total_depth(env) + 1,
{
    assert(bound(env, id).drop_last() =~= env.drop_last());
}

/// After a statement the innermost scope is deeper by what the statement
/// binds.
proof fn statement_deepens(s: StmtView, env: Seq<ScopeView>, at: nat, k: nat)
    requires
        env.len() >= 1,
        stmt_code(s, env, at, k) is Ok,
    ensures
        stmt_code(s, env, at, k)->Ok_0.1.len() == env.len(),
        stmt_code(s, env, at, k)->Ok_0.1.last().depth == env.last().depth + binds(s),
        total_depth(stmt_code(s, env, at, k)->Ok_0.1) == total_depth(env) + binds(s),
    decreases s,
{
    match s {
        StmtView::Print(e) => {
            print_code(e, env, at, k);
        },
        StmtView::Expr(e) => {
            drop_code(e, env, at, k);
        },
        StmtView::Let(id, e) => {
            let_code(id, e, env, at, k);
            bound_is_deeper(env, id);
        },
        StmtView::Block(stmts) => {
            braces_code(stmts, env, at, k);
        },
        StmtView::When(e, body) => {
            starts_task(s, env, at, k);
            spawn_code_of(s, e, *body, env, at, k);
            let head = expr_code(e, env, k)->Ok_0;
            statement_deepens(*body, env, at + head.code.len() + 2, k + head.constants.len());
        },
        StmtView::Wait(e, body) => {
            starts_task(s, env, at, k);
            spawn_code_of(s, e, *body, env, at, k);
            let head = expr_code(e, env, k)->Ok_0;
            statement_deepens(*body, env, at + head.code.len() + 2, k + head.constants.len());
        },
        StmtView::At(e, body) => {
            starts_task(s, env, at, k);
            spawn_code_of(s, e, *body, env, at, k);
            let head = expr_code(e, env, k)->Ok_0;
            statement_deepens(*body, env, at + head.code.len() + 2, k + head.constants.len());
        },
        StmtView::Publish(path, e) => {
            publish_code(path, e, env, at, k);
        },
        StmtView::Scene(id, body) => {
            scene_stmt_code(id, *body, env, at, k);
            bound_is_deeper(env, id);
            bound_is_deeper(bound(env, id), stop_name(id));
            statement_deepens(*body, bound(bound(env, id), stop_name(id)), at + 4, k + 2);
        },
        StmtView::Start(id) => {
            call_code(id, env, at, k);
        },
        StmtView::Stop(id) => {
            call_code(id, env, at, k);
        },
    }
}

/// After the first `n` statements of a block the innermost scope is deeper
/// by what they bind.
proof fn statements_deepen(stmts: Seq<StmtView>, n: nat, env: Seq<ScopeView>, at: nat, k: nat)
    requires
        env.len() >= 1,
        n <= stmts.len(),
        block_code(stmts, n, env, at, k) is Ok,
    ensures
        block_code(stmts, n, env, at, k)->Ok_0.1.len() == env.len(),
        block_code(stmts, n, env, at, k)->Ok_0.1.last().depth == env.last().depth + binds_sum(
            stmts,
            n,
        ),
    decreases n,
{
    block_code_of(stmts, n, env, at, k);
    if n > 0 {
        statements_deepen(stmts, (n - 1) as nat, env, at, k);
        let before = block_code(stmts, (n - 1) as nat, env, at, k)->Ok_0;
        statement_deepens(
            stmts[n - 1],
            before.1,
            at + before.0.code.len(),
            k + before.0.constants.len(),
        );
    }
}

/// The path through `n` pops takes `n` values off the stack.
proof fn pops_path(code: Seq<Instruction>, at: nat, n: nat)
    requires
        placed(code, at, pops(n)),
    ensures
        path_effect(code, at, at + n) == Some(-(n as int)),
        path_low(code, at, at + n) == -(n as int),
    decreases n,
{
    if n > 0 {
        assert(pops(n) =~= pops((n - 1) as nat) + seq![Instruction::Pop]);
        placed_parts(code, at, pops((n - 1) as nat), seq![Instruction::Pop]);
        pops_path(code, at, (n - 1) as nat);
        let last = (at + n - 1) as nat;
        assert(code[last as int] == seq![Instruction::Pop][0]);
        path_through_one(code, last, Instruction::Pop);
        paths_join(code, at, last, at + n);
    }
}

/// The path through an expression and one instruction after it.
proof fn value_then_one(
    e: ExprView,
    env: Seq<ScopeView>,
    k: nat,
    code: Seq<Instruction>,
    at: nat,
    inst: Instruction,
)
    requires
        expr_code(e, env, k) is Ok,
        placed(code, at, expr_code(e, env, k)->Ok_0.with(Fragment::one(inst)).code),
        !(inst is Spawn),
        !(inst is Jump),
        !(inst is JmpNot),
        !(inst is Return),
        !(inst is Term),
    ensures
        path_effect(code, at, at + expr_code(e, env, k)->Ok_0.code.len() + 1) == Some(
            1 + stack_effect(inst),
        ),
        path_low(code, at, at + expr_code(e, env, k)->Ok_0.code.len() + 1) == lesser(
            0,
            1 - takes(inst),
        ),
{
    let value = expr_code(e, env, k)->Ok_0;
    placed_parts(code, at, value.code, seq![inst]);
    expression_pushes_one(e, env, k, code, at);
    let mid = (at + value.code.len()) as nat;
    assert(code[mid as int] == seq![inst][0]);
    path_through_one(code, mid, inst);
    paths_join(code, at, mid, mid + 1);
}

/// The path through the first `n` statements of a block leaves on the stack
/// what they bind.
pub proof fn statements_effect(
    stmts: Seq<StmtView>,
    n: nat,
    env: Seq<ScopeView>,
    at: nat,
    k: nat,
    code: Seq<Instruction>,
)
    requires
        env.len() >= 1,
        n <= stmts.len(),
        code.len() <= usize::MAX,
        forall|i: int| 0 <= i < stmts.len() ==> scoped(#[trigger] stmts[i]),
        block_code(stmts, n, env, at, k) is Ok,
        placed(code, at, block_code(stmts, n, env, at, k)->Ok_0.0.code),
    ensures
        path_effect(code, at, at + block_code(stmts, n, env, at, k)->Ok_0.0.code.len()) == Some(
            binds_sum(stmts, n) as int,
        ),
        path_low(code, at, at + block_code(stmts, n, env, at, k)->Ok_0.0.code.len()) == 0,
    decreases stmts, n,
{
    block_code_of(stmts, n, env, at, k);
    if n > 0 {
        let before = block_code(stmts, (n - 1) as nat, env, at, k)->Ok_0;
        let mid = (at + before.0.code.len()) as nat;
        let next = stmt_code(stmts[n - 1], before.1, mid, k + before.0.constants.len())->Ok_0;
        placed_parts(code, at, before.0.code, next.0.code);
        statements_effect(stmts, (n - 1) as nat, env, at, k, code);
        statements_deepen(stmts, (n - 1) as nat, env, at, k);
        statement_effect(stmts[n - 1], before.1, mid, k + before.0.constants.len(), code);
        paths_join(code, at, mid, mid + next.0.code.len());
    }
}

/// The path through a statement leaves on the stack what the statement
/// binds, and takes nothing that was on the stack before.
pub proof fn statement_effect(
    s: StmtView,
    env: Seq<ScopeView>,
    at: nat,
    k: nat,
    code: Seq<Instruction>,
)
    requires
        env.len() >= 1,
        code.len() <= usize::MAX,
        scoped(s),
        stmt_code(s, env, at, k) is Ok,
        placed(code, at, stmt_code(s, env, at, k)->Ok_0.0.code),
    ensures
        path_effect(code, at, at + stmt_code(s, env, at, k)->Ok_0.0.code.len()) == Some(
            binds(s) as int,
        ),
        path_low(code, at, at + stmt_code(s, env, at, k)->Ok_0.0.code.len()) == 0,
    decreases s, 0nat,
{
    let frag = stmt_code(s, env, at, k)->Ok_0.0;
    let end = (at + frag.code.len()) as nat;
    match s {
        StmtView::Print(e) => {
            print_code(e, env, at, k);
            value_then_one(e, env, k, code, at, Instruction::Print);
        },
        StmtView::Expr(e) => {
            drop_code(e, env, at, k);
            value_then_one(e, env, k, code, at, Instruction::Pop);
        },
        StmtView::Let(id, e) => {
            let_code(id, e, env, at, k);
            expression_pushes_one(e, env, k, code, at);
        },
        StmtView::Block(stmts) => {
            braces_code(stmts, env, at, k);
            let inner = block_code(stmts, stmts.len(), nested(env), at, k)->Ok_0;
            let depth = inner.1.last().depth as nat;
            placed_parts(code, at, inner.0.code, pops(depth));
            statements_effect(stmts, stmts.len(), nested(env), at, k, code);
            statements_deepen(stmts, stmts.len(), nested(env), at, k);
            let mid = (at + inner.0.code.len()) as nat;
            pops_path(code, mid, depth);
            paths_join(code, at, mid, mid + depth);
        },
        StmtView::When(e, body) => {
            starts_task(s, env, at, k);
            spawn_code_of(s, e, *body, env, at, k);
            task_path(s, e, *body, env, at, k, code);
        },
        StmtView::Wait(e, body) => {
            starts_task(s, env, at, k);
            spawn_code_of(s, e, *body, env, at, k);
            task_path(s, e, *body, env, at, k, code);
        },
        StmtView::At(e, body) => {
            starts_task(s, env, at, k);
            spawn_code_of(s, e, *body, env, at, k);
            task_path(s, e, *body, env, at, k, code);
        },
        StmtView::Publish(path, e) => {
            publish_code(path, e, env, at, k);
            let push = constant_code(crate::value::ValueView::Path(path), k);
            let value = expr_code(e, env, k + 1)->Ok_0;
            let last = seq![Instruction::Publish];
            assert(frag.code =~= push.code + (value.code + last));
            placed_parts(code, at, push.code, value.code + last);
            constant_path(code, at, crate::value::ValueView::Path(path), k);
            assert(value.with(Fragment::one(Instruction::Publish)).code =~= value.code + last);
            value_then_one(e, env, k + 1, code, at + 1, Instruction::Publish);
            paths_join(code, at, at + 1, at + 1 + value.code.len() + 1);
        },
        StmtView::Scene(id, body) => {
            scene_stmt_code(id, *body, env, at, k);
            let inner = stmt_code(*body, bound(bound(env, id), stop_name(id)), at + 4, k + 2)->Ok_0.0;
            let whole = scene_code(at, k, inner).code;
            assert(whole.len() == inner.code.len() + 7);
            assert(code[at as int] == whole[0]);
            assert(code[(at + 1) as int] == whole[1]);
            assert(code[(at + 2) as int] == whole[2]);
            path_through_one(code, at, Instruction::Constant(k as usize));
            path_through_one(code, at + 1, Instruction::Constant((k + 1) as usize));
            assert(path_effect(code, end, end) == Some(0int));
            assert(path_effect(code, at + 2, end) == Some(0int));
            assert(path_effect(code, at + 2, at + 2) == Some(0int));
            assert(path_low(code, end, end) == 0);
            assert(path_low(code, at + 2, end) == 0);
            paths_join(code, at, at + 1, at + 2);
            paths_join(code, at, at + 2, end);
        },
        StmtView::Start(id) => {
            call_code(id, env, at, k);
            call_path(code, at, env, id);
        },
        StmtView::Stop(id) => {
            call_code(id, env, at, k);
            call_path(code, at, env, stop_name(id));
        },
    }
}

/// The path through the code that calls what a name stands for leaves the
/// stack as deep as it was.
proof fn call_path(code: Seq<Instruction>, at: nat, env: Seq<ScopeView>, id: Seq<char>)
    requires
        pick_code(env, id) is Ok,
        placed(code, at, pick_code(env, id)->Ok_0.with(Fragment::one(Instruction::Call)).code),
    ensures
        pick_code(env, id)->Ok_0.with(Fragment::one(Instruction::Call)).code.len() == 2,
        path_effect(code, at, at + 2) == Some(0int),
        path_low(code, at, at + 2) == 0,
{
    let pick = pick_code(env, id)->Ok_0;
    placed_parts(code, at, pick.code, seq![Instruction::Call]);
    pick_path(code, at, env, id);
    assert(code[(at + 1) as int] == seq![Instruction::Call][0]);
    path_through_one(code, at + 1, Instruction::Call);
    paths_join(code, at, at + 1, at + 2);
}

/// The path of the task that starts another leads at once past the code of
/// the new task.
proof fn task_path(
    s: StmtView,
    e: ExprView,
    body: StmtView,
    env: Seq<ScopeView>,
    at: nat,
    k: nat,
    code: Seq<Instruction>,
)
    requires
        code.len() <= usize::MAX,
        spawn_code(s, e, body, env, at, k) is Ok,
        placed(code, at, spawn_code(s, e, body, env, at, k)->Ok_0.0.code),
        expr_code(e, env, k) is Ok,
        spawn_code(s, e, body, env, at, k)->Ok_0.0 == task_code(
            at,
            expr_code(e, env, k)->Ok_0,
            task_test(s, at),
            stmt_code(
                body,
                env,
                at + expr_code(e, env, k)->Ok_0.code.len() + 2,
                k + expr_code(e, env, k)->Ok_0.constants.len(),
            )->Ok_0.0,
            task_last(s, at),
        ),
    ensures
        path_effect(code, at, at + spawn_code(s, e, body, env, at, k)->Ok_0.0.code.len()) == Some(
            0int,
        ),
        path_low(code, at, at + spawn_code(s, e, body, env, at, k)->Ok_0.0.code.len()) == 0,
{
    let frag = spawn_code(s, e, body, env, at, k)->Ok_0.0;
    let end = (at + frag.code.len()) as nat;
    assert(code[at as int] == frag.code[0]);
    assert(path_effect(code, end, end) == Some(0int));
    assert(path_low(code, end, end) == 0);
}

/// At the end of a block the stack is as deep as it was before the block: the
/// path through the code of a block, whose statements are scoped, has no
/// effect on the depth, and takes nothing that was on the stack before.
pub proof fn block_is_balanced(
    stmts: Seq<StmtView>,
    env: Seq<ScopeView>,
    at: nat,
    k: nat,
    code: Seq<Instruction>,
)
    requires
        env.len() >= 1,
        code.len() <= usize::MAX,
        forall|i: int| 0 <= i < stmts.len() ==> scoped(#[trigger] stmts[i]),
        stmt_code(StmtView::Block(stmts), env, at, k) is Ok,
        placed(code, at, stmt_code(StmtView::Block(stmts), env, at, k)->Ok_0.0.code),
    ensures
        path_effect(
            code,
            at,
            at + stmt_code(StmtView::Block(stmts), env, at, k)->Ok_0.0.code.len(),
        ) == Some(0int),
        path_low(
            code,
            at,
            at + stmt_code(StmtView::Block(stmts), env, at, k)->Ok_0.0.code.len(),
        ) == 0,
{
    statement_effect(StmtView::Block(stmts), env, at, k, code);
}

/// The code of a block is the code of its statements and then one `Pop` for
/// each value that they leave on the stack, no more and no fewer. The scopes
/// after the block are the scopes before it: what the block binds is not
/// bound after it.
pub proof fn block_pops_what_it_binds(
    stmts: Seq<StmtView>,
    env: Seq<ScopeView>,
    at: nat,
    k: nat,
)
    requires
        stmt_code(StmtView::Block(stmts), env, at, k) is Ok,
    ensures
        block_code(stmts, stmts.len(), nested(env), at, k) is Ok,
        stmt_code(StmtView::Block(stmts), env, at, k)->Ok_0.0.code == block_code(
            stmts,
            stmts.len(),
            nested(env),
            at,
            k,
        )->Ok_0.0.code + pops(binds_sum(stmts, stmts.len())),
        stmt_code(StmtView::Block(stmts), env, at, k)->Ok_0.0.constants =~= block_code(
            stmts,
            stmts.len(),
            nested(env),
            at,
            k,
        )->Ok_0.0.constants,
        stmt_code(StmtView::Block(stmts), env, at, k)->Ok_0.1 == env,
{
    braces_code(stmts, env, at, k);
    statements_deepen(stmts, stmts.len(), nested(env), at, k);
}

/// The task after `n` steps, and what is left of `feed`, the payloads that
/// reach it: each read of a topic takes the first of them. Nothing, if the
/// task cannot go on or a payload is missing.
pub open spec fn run(
    ctx: ContextView,
    code: CodeView,
    n: nat,
    clock: Clock,
    feed: Seq<Seq<u8>>,
) -> Option<(ContextView, Seq<Seq<u8>>)>
    decreases n,
{
    if n == 0 {
        Some((ctx, feed))
    } else {
        match step_spec(ctx, code, clock) {
            Err(_) => None,
            Ok((Effect::Get(_), next)) => if feed.len() == 0 {
                None
            } else {
                match receive_spec(next, feed[0]) {
                    Ok(got) => run(got, code, (n - 1) as nat, clock, feed.drop_first()),
                    Err(_) => None,
                }
            },
            Ok((_, next)) => run(next, code, (n - 1) as nat, clock, feed),
        }
    }
}

/// The task after `n` steps that it can make.
pub open spec fn reached(
    ctx: ContextView,
    code: CodeView,
    n: nat,
    clock: Clock,
    feed: Seq<Seq<u8>>,
) -> ContextView {
    match run(ctx, code, n, clock, feed) {
        Some((end, _)) => end,
        None => ctx,
    }
}

/// Running `n` steps and then `m` is running `n + m`.
pub proof fn run_in_two(
    ctx: ContextView,
    code: CodeView,
    n: nat,
    m: nat,
    clock: Clock,
    feed: Seq<Seq<u8>>,
)
    ensures
        run(ctx, code, n + m, clock, feed) == (match run(ctx, code, n, clock, feed) {
            Some((mid, rest)) => run(mid, code, m, clock, rest),
            None => None,
        }),
    decreases n,
{
    if n > 0 {
        match step_spec(ctx, code, clock) {
            Err(_) => {},
            Ok((Effect::Get(_), next)) => {
                if feed.len() > 0 {
                    match receive_spec(next, feed[0]) {
                        Ok(got) => {
                            run_in_two(got, code, (n - 1) as nat, m, clock, feed.drop_first());
                        },
                        Err(_) => {},
                    }
                }
            },
            Ok((_, next)) => {
                run_in_two(next, code, (n - 1) as nat, m, clock, feed);
            },
        }
    }
}

/// Whether the instruction is one of those that the code of an expression is
/// made of.
pub open spec fn is_plain(inst: Instruction) -> bool {
    match inst {
        Instruction::Constant(_) => true,
        Instruction::Pick(_) => true,
        Instruction::Get => true,
        Instruction::Equal => true,
        Instruction::Swap => true,
        Instruction::Pop => true,
        Instruction::Index => true,
        _ => false,
    }
}

/// One step through an instruction of an expression leads to the next
/// instruction, changes the depth of the stack by the effect of the
/// instruction, and leaves the calls as they are. Below the values that the
/// instruction takes, the stack stays as it is.
proof fn run_one(
    ctx: ContextView,
    code: CodeView,
    clock: Clock,
    feed: Seq<Seq<u8>>,
    inst: Instruction,
)
    requires
        code.instructions.len() <= usize::MAX,
        ctx.ip < code.instructions.len(),
        code.instructions[ctx.ip as int] == inst,
        is_plain(inst),
        run(ctx, code, 1, clock, feed) is Some,
    ensures
        reached(ctx, code, 1, clock, feed).ip == ctx.ip + 1,
        reached(ctx, code, 1, clock, feed).stack.len() == ctx.stack.len() + stack_effect(inst),
        reached(ctx, code, 1, clock, feed).call_stack == ctx.call_stack,
        inst is Constant || inst is Pick ==> reached(ctx, code, 1, clock, feed).stack.drop_last()
            == ctx.stack,
        inst is Get ==> ctx.stack.len() >= 1 && reached(ctx, code, 1, clock, feed).stack.drop_last()
            == ctx.stack.drop_last(),
        inst is Pop ==> ctx.stack.len() >= 1 && reached(ctx, code, 1, clock, feed).stack
            == ctx.stack.drop_last(),
        inst is Swap ==> ctx.stack.len() >= 2 && reached(ctx, code, 1, clock, feed).stack
            == ctx.stack.drop_last().drop_last().push(ctx.top(0)).push(ctx.top(1)),
        inst is Equal || inst is Index ==> ctx.stack.len() >= 2 && reached(
            ctx,
            code,
            1,
            clock,
            feed,
        ).stack.drop_last() == ctx.stack.drop_last().drop_last(),
{
    let after = reached(ctx, code, 1, clock, feed).stack;
    match step_spec(ctx, code, clock) {
        Err(_) => {},
        Ok((Effect::Get(_), next)) => {
            let got = receive_spec(next, feed[0])->Ok_0;
            assert(run(got, code, 0, clock, feed.drop_first()) == Some((got, feed.drop_first())));
            assert(after.drop_last() =~= ctx.stack.drop_last());
        },
        Ok((_, next)) => {
            assert(run(next, code, 0, clock, feed) == Some((next, feed)));
            assert(after == next.stack);
            if inst is Constant || inst is Pick {
                assert(after.drop_last() =~= ctx.stack);
            }
            if inst is Pop {
                assert(after =~= ctx.stack.drop_last());
            }
            if inst is Swap {
                assert(after =~= ctx.stack.drop_last().drop_last().push(ctx.top(0)).push(
                    ctx.top(1),
                ));
            }
            if inst is Equal || inst is Index {
                assert(after.drop_last() =~= ctx.stack.drop_last().drop_last());
            }
        },
    }
}

/// A task that runs the code of an expression to its end has one value more
/// on its stack than before, and below that value the stack is as it was:
/// whatever the expression is, whatever the topics deliver, and whatever
/// lies on the stack. The value that `init as id in cont` binds to `id` is
/// gone by then.
#[verifier::rlimit(40)]
pub proof fn expression_runs_to_one_value(
    e: ExprView,
    env: Seq<ScopeView>,
    k: nat,
    code: CodeView,
    ctx: ContextView,
    clock: Clock,
    feed: Seq<Seq<u8>>,
)
    requires
        code.instructions.len() <= usize::MAX,
        expr_code(e, env, k) is Ok,
        placed(code.instructions, ctx.ip as nat, expr_code(e, env, k)->Ok_0.code),
        run(ctx, code, expr_code(e, env, k)->Ok_0.code.len(), clock, feed) is Some,
    ensures
        reached(ctx, code, expr_code(e, env, k)->Ok_0.code.len(), clock, feed).ip == ctx.ip
            + expr_code(e, env, k)->Ok_0.code.len(),
        reached(ctx, code, expr_code(e, env, k)->Ok_0.code.len(), clock, feed).stack.len()
            == ctx.stack.len() + 1,
        reached(ctx, code, expr_code(e, env, k)->Ok_0.code.len(), clock, feed).stack.drop_last()
            == ctx.stack,
        reached(ctx, code, expr_code(e, env, k)->Ok_0.code.len(), clock, feed).call_stack
            == ctx.call_stack,
    decreases e,
{
    let frag = expr_code(e, env, k)->Ok_0;
    let at = ctx.ip as nat;
    let all = code.instructions;
    match e {
        ExprView::Ident(id) => {
            name_code(id, env, k);
            assert(all[at as int] == frag.code[0]);
            run_one(ctx, code, clock, feed, frag.code[0]);
        },
        ExprView::Binary(lhs, op, rhs) => {
            binary_code(*lhs, op, *rhs, env, k);
            let left = expr_code(*lhs, env, k)->Ok_0;
            let right = expr_code(*rhs, env, k + left.constants.len())->Ok_0;
            let last = seq![Instruction::Equal];
            assert(frag.code =~= left.code + (right.code + last));
            placed_parts(all, at, left.code, right.code + last);
            placed_parts(all, at + left.code.len(), right.code, last);
            let n = left.code.len();
            let m = right.code.len();
            run_in_two(ctx, code, n, m + 1, clock, feed);
            expression_runs_to_one_value(*lhs, env, k, code, ctx, clock, feed);
            let (mid, rest) = run(ctx, code, n, clock, feed)->0;
            run_in_two(mid, code, m, 1, clock, rest);
            expression_runs_to_one_value(
                *rhs,
                env,
                k + left.constants.len(),
                code,
                mid,
                clock,
                rest,
            );
            let (end, tail) = run(mid, code, m, clock, rest)->0;
            assert(all[end.ip as int] == last[0]);
            run_one(end, code, clock, tail, Instruction::Equal);
        },
        ExprView::Path(path) => {
            path_code(path, env, k);
            let push = constant_code(crate::value::ValueView::Path(path), k);
            let last = seq![Instruction::Get];
            assert(push.code =~= seq![Instruction::Constant(k as usize)]);
            assert(frag.code =~= push.code + last);
            placed_parts(all, at, push.code, last);
            assert(all[at as int] == push.code[0]);
            assert(all[(at + 1) as int] == last[0]);
            run_in_two(ctx, code, 1, 1, clock, feed);
            run_one(ctx, code, clock, feed, Instruction::Constant(k as usize));
            let (mid, rest) = run(ctx, code, 1, clock, feed)->0;
            run_one(mid, code, clock, rest, Instruction::Get);
        },
        ExprView::As(init, id, cont) => {
            as_code(*init, id, *cont, env, k);
            let first = expr_code(*init, env, k)->Ok_0;
            let second = expr_code(*cont, bound(nested(env), id), k + first.constants.len())->Ok_0;
            let swap = seq![Instruction::Swap];
            let pop = seq![Instruction::Pop];
            assert(frag.code =~= first.code + (second.code + (swap + pop)));
            placed_parts(all, at, first.code, second.code + (swap + pop));
            placed_parts(all, at + first.code.len(), second.code, swap + pop);
            placed_parts(all, at + first.code.len() + second.code.len(), swap, pop);
            let n = first.code.len();
            let m = second.code.len();
            run_in_two(ctx, code, n, m + 2, clock, feed);
            expression_runs_to_one_value(*init, env, k, code, ctx, clock, feed);
            let (mid, rest) = run(ctx, code, n, clock, feed)->0;
            run_in_two(mid, code, m, 2, clock, rest);
            expression_runs_to_one_value(
                *cont,
                bound(nested(env), id),
                k + first.constants.len(),
                code,
                mid,
                clock,
                rest,
            );
            let (end, tail) = run(mid, code, m, clock, rest)->0;
            assert(all[end.ip as int] == swap[0]);
            assert(all[(end.ip + 1) as int] == pop[0]);
            run_in_two(end, code, 1, 1, clock, tail);
            run_one(end, code, clock, tail, Instruction::Swap);
            let (swapped, left) = run(end, code, 1, clock, tail)->0;
            run_one(swapped, code, clock, left, Instruction::Pop);
        },
        ExprView::Index(obj, prop) => {
            index_code(*obj, prop, env, k);
            let first = expr_code(*obj, env, k)->Ok_0;
            let push = constant_code(
                crate::value::ValueView::Str(prop),
                k + first.constants.len(),
            );
            let last = seq![Instruction::Index];
            assert(push.code =~= seq![Instruction::Constant((k + first.constants.len()) as usize)]);
            assert(frag.code =~= first.code + (push.code + last));
            placed_parts(all, at, first.code, push.code + last);
            placed_parts(all, at + first.code.len(), push.code, last);
            let n = first.code.len();
            run_in_two(ctx, code, n, 2, clock, feed);
            expression_runs_to_one_value(*obj, env, k, code, ctx, clock, feed);
            let (mid, rest) = run(ctx, code, n, clock, feed)->0;
            assert(all[mid.ip as int] == push.code[0]);
            assert(all[(mid.ip + 1) as int] == last[0]);
            run_in_two(mid, code, 1, 1, clock, rest);
            run_one(
                mid,
                code,
                clock,
                rest,
                Instruction::Constant((k + first.constants.len()) as usize),
            );
            let (pushed, left) = run(mid, code, 1, clock, rest)->0;
            run_one(pushed, code, clock, left, Instruction::Index);
        },
        _ => {
            literal_code(e, env, k);
            let push = constant_code(literal_of(e)->Ok_0, k);
            assert(push.code =~= seq![Instruction::Constant(k as usize)]);
            assert(all[at as int] == push.code[0]);
            run_one(ctx, code, clock, feed, Instruction::Constant(k as usize));
        },
    }
}

/// How many instructions the code of `init` has, and how many the code of
/// `cont`, in `init as id in cont`.
pub open spec fn binding_parts(
    init: ExprView,
    id: Seq<char>,
    cont: ExprView,
    env: Seq<ScopeView>,
    k: nat,
) -> (nat, nat) {
    let first = expr_code(init, env, k)->Ok_0;
    let second = expr_code(cont, bound(nested(env), id), k + first.constants.len())->Ok_0;
    (first.code.len(), second.code.len())
}

/// What `init as id in cont` binds is not seen outside it. When the code of
/// `cont` has run, the stack holds what it held before, the value bound to
/// `id`, and the value of `cont`. Two steps later, at the end of the whole
/// expression, it holds what it held before and the value of `cont`: the
/// bound value is gone.
pub proof fn binding_is_gone_after(
    init: ExprView,
    id: Seq<char>,
    cont: ExprView,
    env: Seq<ScopeView>,
    k: nat,
    code: CodeView,
    ctx: ContextView,
    clock: Clock,
    feed: Seq<Seq<u8>>,
)
    requires
        code.instructions.len() <= usize::MAX,
        expr_code(ExprView::As(Box::new(init), id, Box::new(cont)), env, k) is Ok,
        placed(
            code.instructions,
            ctx.ip as nat,
            expr_code(ExprView::As(Box::new(init), id, Box::new(cont)), env, k)->Ok_0.code,
        ),
        run(
            ctx,
            code,
            expr_code(ExprView::As(Box::new(init), id, Box::new(cont)), env, k)->Ok_0.code.len(),
            clock,
            feed,
        ) is Some,
    ensures
        ({
            let (n, m) = binding_parts(init, id, cont, env, k);
            let inside = reached(ctx, code, n + m, clock, feed).stack;
            let outside = reached(ctx, code, n + m + 2, clock, feed).stack;
            &&& expr_code(
                ExprView::As(Box::new(init), id, Box::new(cont)),
                env,
                k,
            )->Ok_0.code.len() == n + m + 2
            &&& inside.len() == ctx.stack.len() + 2
            &&& inside == ctx.stack.push(reached(ctx, code, n, clock, feed).stack.last()).push(
                inside.last(),
            )
            &&& outside == ctx.stack.push(inside.last())
        }),
{
    let e = ExprView::As(Box::new(init), id, Box::new(cont));
    let frag = expr_code(e, env, k)->Ok_0;
    let at = ctx.ip as nat;
    let all = code.instructions;
    as_code(init, id, cont, env, k);
    let first = expr_code(init, env, k)->Ok_0;
    let second = expr_code(cont, bound(nested(env), id), k + first.constants.len())->Ok_0;
    let swap = seq![Instruction::Swap];
    let pop = seq![Instruction::Pop];
    assert(frag.code =~= first.code + (second.code + (swap + pop)));
    placed_parts(all, at, first.code, second.code + (swap + pop));
    placed_parts(all, at + first.code.len(), second.code, swap + pop);
    placed_parts(all, at + first.code.len() + second.code.len(), swap, pop);
    let n = first.code.len();
    let m = second.code.len();
    run_in_two(ctx, code, n, m + 2, clock, feed);
    expression_runs_to_one_value(init, env, k, code, ctx, clock, feed);
    let (mid, rest) = run(ctx, code, n, clock, feed)->0;
    run_in_two(mid, code, m, 2, clock, rest);
    expression_runs_to_one_value(
        cont,
        bound(nested(env), id),
        k + first.constants.len(),
        code,
        mid,
        clock,
        rest,
    );
    let (end, tail) = run(mid, code, m, clock, rest)->0;
    run_in_two(ctx, code, n, m, clock, feed);
    assert(reached(ctx, code, n + m, clock, feed) == end);
    assert(all[end.ip as int] == swap[0]);
    assert(all[(end.ip + 1) as int] == pop[0]);
    run_in_two(end, code, 1, 1, clock, tail);
    run_one(end, code, clock, tail, Instruction::Swap);
    let (swapped, left) = run(end, code, 1, clock, tail)->0;
    run_one(swapped, code, clock, left, Instruction::Pop);
    let (last, _) = run(swapped, code, 1, clock, left)->0;
    run_in_two(ctx, code, n + m, 2, clock, feed);
    assert(reached(ctx, code, n + m + 2, clock, feed) == last);
    assert(mid.stack =~= ctx.stack.push(mid.stack.last()));
    assert(end.stack =~= mid.stack.push(end.stack.last()));
    assert(last.stack =~= ctx.stack.push(end.stack.last()));
}

/// What `as` binds inside an expression is bound nowhere after it: the
/// scopes after a statement that prints, drops or sends a value are the
/// scopes before it, and after a `let` they hold the name of the `let` and no
/// other, whatever the expression of the statement binds on its way.
pub proof fn bindings_stay_inside(s: StmtView, env: Seq<ScopeView>, at: nat, k: nat)
    requires
        stmt_code(s, env, at, k) is Ok,
    ensures
        s is Print || s is Expr || s is Publish ==> stmt_code(s, env, at, k)->Ok_0.1 == env,
        s matches StmtView::Let(id, _) ==> stmt_code(s, env, at, k)->Ok_0.1 == bound(env, id),
{
    match s {
        StmtView::Print(e) => {
            print_code(e, env, at, k);
        },
        StmtView::Expr(e) => {
            drop_code(e, env, at, k);
        },
        StmtView::Publish(path, e) => {
            publish_code(path, e, env, at, k);
        },
        StmtView::Let(id, e) => {
            let_code(id, e, env, at, k);
        },
        _ => {},
    }
}

/// How many instructions lie on the path from the address `pc` to the
/// address `end`.
pub open spec fn path_steps(code: Seq<Instruction>, pc: nat, end: nat) -> nat
    decreases end - pc,
{
    if pc >= end || pc >= code.len() {
        0
    } else {
        match code[pc as int] {
            Instruction::Spawn(r) => if pc < r <= end {
                1 + path_steps(code, r as nat, end)
            } else {
                0
            },
            Instruction::Jump(r) => if pc < r <= end {
                1 + path_steps(code, r as nat, end)
            } else {
                0
            },
            _ => 1 + path_steps(code, pc + 1, end),
        }
    }
}

/// Whether a call lies on the path from the address `pc` to the address
/// `end`.
pub open spec fn calls_on_path(code: Seq<Instruction>, pc: nat, end: nat) -> bool
    decreases end - pc,
{
    if pc >= end || pc >= code.len() {
        false
    } else {
        match code[pc as int] {
            Instruction::Spawn(r) => pc < r <= end && calls_on_path(code, r as nat, end),
            Instruction::Jump(r) => pc < r <= end && calls_on_path(code, r as nat, end),
            Instruction::Call => true,
            _ => calls_on_path(code, pc + 1, end),
        }
    }
}

/// One step of a task through an instruction on a path leads to where the
/// path goes on, and changes the depth of the stack by the effect of the
/// instruction. Below what the instruction takes, the stack stays as it is.
proof fn step_follows_path(
    ctx: ContextView,
    code: CodeView,
    clock: Clock,
    feed: Seq<Seq<u8>>,
    end: nat,
)
    requires
        code.instructions.len() <= usize::MAX,
        ctx.ip < end,
        path_effect(code.instructions, ctx.ip as nat, end) is Some,
        !(code.instructions[ctx.ip as int] is Call),
        run(ctx, code, 1, clock, feed) is Some,
    ensures
        ctx.ip < code.instructions.len(),
        reached(ctx, code, 1, clock, feed).stack.len() == ctx.stack.len() + stack_effect(
            code.instructions[ctx.ip as int],
        ),
        match code.instructions[ctx.ip as int] {
            Instruction::Spawn(r) => reached(ctx, code, 1, clock, feed).ip == r,
            Instruction::Jump(r) => reached(ctx, code, 1, clock, feed).ip == r,
            _ => reached(ctx, code, 1, clock, feed).ip == ctx.ip + 1,
        },
        takes(code.instructions[ctx.ip as int]) <= ctx.stack.len(),
        reached(ctx, code, 1, clock, feed).stack.take(
            ctx.stack.len() - takes(code.instructions[ctx.ip as int]),
        ) == ctx.stack.take(ctx.stack.len() - takes(code.instructions[ctx.ip as int])),
{
    let kept = ctx.stack.len() - takes(code.instructions[ctx.ip as int]);
    match step_spec(ctx, code, clock) {
        Err(_) => {},
        Ok((Effect::Get(_), next)) => {
            let got = receive_spec(next, feed[0])->Ok_0;
            assert(run(got, code, 0, clock, feed.drop_first()) == Some((got, feed.drop_first())));
            assert(got.stack.take(kept) =~= ctx.stack.take(kept));
        },
        Ok((_, next)) => {
            assert(run(next, code, 0, clock, feed) == Some((next, feed)));
            assert(next.stack.take(kept) =~= ctx.stack.take(kept));
        },
    }
}

/// A task that runs along a path without calls arrives at the end of the
/// path, and the depth of its stack has changed by the effect of the path.
/// Below where the path reaches, the stack is as it was.
pub proof fn path_is_run(
    ctx: ContextView,
    code: CodeView,
    clock: Clock,
    feed: Seq<Seq<u8>>,
    end: nat,
)
    requires
        code.instructions.len() <= usize::MAX,
        path_effect(code.instructions, ctx.ip as nat, end) is Some,
        !calls_on_path(code.instructions, ctx.ip as nat, end),
        run(ctx, code, path_steps(code.instructions, ctx.ip as nat, end), clock, feed) is Some,
    ensures
        reached(ctx, code, path_steps(code.instructions, ctx.ip as nat, end), clock, feed).ip
            == end,
        reached(
            ctx,
            code,
            path_steps(code.instructions, ctx.ip as nat, end),
            clock,
            feed,
        ).stack.len() == ctx.stack.len() + path_effect(code.instructions, ctx.ip as nat, end)->0,
        ctx.stack.len() + path_low(code.instructions, ctx.ip as nat, end) >= 0,
        reached(
            ctx,
            code,
            path_steps(code.instructions, ctx.ip as nat, end),
            clock,
            feed,
        ).stack.take(ctx.stack.len() + path_low(code.instructions, ctx.ip as nat, end))
            == ctx.stack.take(ctx.stack.len() + path_low(code.instructions, ctx.ip as nat, end)),
    decreases end - ctx.ip,
{
    let all = code.instructions;
    let pc = ctx.ip as nat;
    if pc < end {
        let steps = path_steps(all, pc, end);
        assert(steps >= 1);
        run_in_two(ctx, code, 1, (steps - 1) as nat, clock, feed);
        step_follows_path(ctx, code, clock, feed, end);
        let (next, rest) = run(ctx, code, 1, clock, feed)->0;
        path_is_run(next, code, clock, rest, end);
        let last = reached(ctx, code, steps, clock, feed);
        assert(last == reached(next, code, (steps - 1) as nat, clock, rest));
        let inst = all[pc as int];
        let low = path_low(all, pc, end);
        let rest_low = path_low(all, next.ip as nat, end);
        low_is_below_effect(all, next.ip as nat, end);
        low_is_not_above(all, next.ip as nat, end);
        let kept = ctx.stack.len() + low;
        let kept_by_step = ctx.stack.len() - takes(inst);
        let kept_by_rest = next.stack.len() + rest_low;
        assert(kept <= kept_by_step);
        assert(kept <= kept_by_rest);
        prefix_of_prefix(last.stack, next.stack, kept_by_rest, kept);
        prefix_of_prefix(next.stack, ctx.stack, kept_by_step, kept);
    }
}

/// Whether every instruction of `part` is one of those that the code of an
/// expression is made of.
pub open spec fn all_plain(part: Seq<Instruction>) -> bool {
    forall|i: int| 0 <= i < part.len() ==> is_plain(#[trigger] part[i])
}

/// The code of an expression is made of instructions that push, pop and
/// compute, one after the other: none of them leads anywhere else.
pub proof fn expression_is_plain(e: ExprView, env: Seq<ScopeView>, k: nat)
    requires
        expr_code(e, env, k) is Ok,
    ensures
        all_plain(expr_code(e, env, k)->Ok_0.code),
    decreases e,
{
    let frag = expr_code(e, env, k)->Ok_0;
    match e {
        ExprView::Ident(id) => {
            name_code(id, env, k);
        },
        ExprView::Binary(lhs, op, rhs) => {
            binary_code(*lhs, op, *rhs, env, k);
            let left = expr_code(*lhs, env, k)->Ok_0;
            let right = expr_code(*rhs, env, k + left.constants.len())->Ok_0;
            expression_is_plain(*lhs, env, k);
            expression_is_plain(*rhs, env, k + left.constants.len());
            assert(frag.code =~= left.code + right.code + seq![Instruction::Equal]);
        },
        ExprView::Path(path) => {
            path_code(path, env, k);
            assert(frag.code =~= seq![Instruction::Constant(k as usize), Instruction::Get]);
        },
        ExprView::As(init, id, cont) => {
            as_code(*init, id, *cont, env, k);
            let first = expr_code(*init, env, k)->Ok_0;
            let second = expr_code(*cont, bound(nested(env), id), k + first.constants.len())->Ok_0;
            expression_is_plain(*init, env, k);
            expression_is_plain(*cont, bound(nested(env), id), k + first.constants.len());
            assert(frag.code =~= first.code + second.code + seq![
                Instruction::Swap,
                Instruction::Pop,
            ]);
        },
        ExprView::Index(obj, prop) => {
            index_code(*obj, prop, env, k);
            let first = expr_code(*obj, env, k)->Ok_0;
            expression_is_plain(*obj, env, k);
            assert(frag.code =~= first.code + seq![
                Instruction::Constant((k + first.constants.len()) as usize),
                Instruction::Index,
            ]);
        },
        _ => {
            literal_code(e, env, k);
            assert(frag.code =~= seq![Instruction::Constant(k as usize)]);
        },
    }
}

/// No call lies on the path through instructions that are all plain.
proof fn plain_has_no_calls(code: Seq<Instruction>, at: nat, part: Seq<Instruction>)
    requires
        placed(code, at, part),
        all_plain(part),
    ensures
        !calls_on_path(code, at, at + part.len()),
    decreases part.len(),
{
    if part.len() > 0 {
        let rest = part.drop_first();
        assert(code[at as int] == part[0]);
        assert forall|i: int| 0 <= i < rest.len() implies code[at + 1 + i] == #[trigger] rest[i]
            && is_plain(rest[i]) by {
            assert(rest[i] == part[i + 1]);
        }
        plain_has_no_calls(code, at + 1, rest);
    }
}

/// A call lies on a path made of two if it lies on one of the two.
proof fn calls_join(code: Seq<Instruction>, a: nat, b: nat, c: nat)
    requires
        a <= b <= c,
        path_effect(code, a, b) is Some,
    ensures
        calls_on_path(code, a, c) == (calls_on_path(code, a, b) || calls_on_path(code, b, c)),
    decreases b - a,
{
    if a < b {
        match code[a as int] {
            Instruction::Spawn(r) => {
                calls_join(code, r as nat, b, c);
            },
            Instruction::Jump(r) => {
                calls_join(code, r as nat, b, c);
            },
            Instruction::JmpNot(_) => {},
            Instruction::Return => {},
            Instruction::Term => {},
            _ => {
                calls_join(code, a + 1, b, c);
            },
        }
    }
}

/// Whether a statement calls a scene on the path of the task that runs it:
/// it starts or stops one, or is a block with a statement that does.
pub open spec fn calls(s: StmtView) -> bool
    decreases s,
{
    match s {
        StmtView::Start(_) => true,
        StmtView::Stop(_) => true,
        StmtView::Block(stmts) => exists|i: int| 0 <= i < stmts.len() && calls(#[trigger] stmts[i]),
        _ => false,
    }
}

/// No call lies on the path through an expression and one instruction after
/// it that is no call.
proof fn value_then_one_has_no_calls(
    e: ExprView,
    env: Seq<ScopeView>,
    k: nat,
    code: Seq<Instruction>,
    at: nat,
    inst: Instruction,
)
    requires
        expr_code(e, env, k) is Ok,
        placed(code, at, expr_code(e, env, k)->Ok_0.with(Fragment::one(inst)).code),
        !(inst is Spawn),
        !(inst is Jump),
        !(inst is Call),
    ensures
        !calls_on_path(code, at, at + expr_code(e, env, k)->Ok_0.code.len() + 1),
{
    let value = expr_code(e, env, k)->Ok_0;
    placed_parts(code, at, value.code, seq![inst]);
    expression_is_plain(e, env, k);
    plain_has_no_calls(code, at, value.code);
    expression_pushes_one(e, env, k, code, at);
    let mid = (at + value.code.len()) as nat;
    assert(code[mid as int] == seq![inst][0]);
    calls_join(code, at, mid, mid + 1);
    assert(!calls_on_path(code, mid + 1, mid + 1));
}

/// No call lies on the path through the first `n` statements of a block of
/// which none calls a scene.
proof fn statements_have_no_calls(
    stmts: Seq<StmtView>,
    n: nat,
    env: Seq<ScopeView>,
    at: nat,
    k: nat,
    code: Seq<Instruction>,
)
    requires
        env.len() >= 1,
        n <= stmts.len(),
        code.len() <= usize::MAX,
        forall|i: int| 0 <= i < stmts.len() ==> scoped(#[trigger] stmts[i]),
        forall|i: int| 0 <= i < stmts.len() ==> !calls(#[trigger] stmts[i]),
        block_code(stmts, n, env, at, k) is Ok,
        placed(code, at, block_code(stmts, n, env, at, k)->Ok_0.0.code),
    ensures
        !calls_on_path(code, at, at + block_code(stmts, n, env, at, k)->Ok_0.0.code.len()),
    decreases stmts, n,
{
    block_code_of(stmts, n, env, at, k);
    if n > 0 {
        let before = block_code(stmts, (n - 1) as nat, env, at, k)->Ok_0;
        let mid = (at + before.0.code.len()) as nat;
        let next = stmt_code(stmts[n - 1], before.1, mid, k + before.0.constants.len())->Ok_0;
        placed_parts(code, at, before.0.code, next.0.code);
        statements_have_no_calls(stmts, (n - 1) as nat, env, at, k, code);
        statements_effect(stmts, (n - 1) as nat, env, at, k, code);
        statements_deepen(stmts, (n - 1) as nat, env, at, k);
        statement_has_no_calls(stmts[n - 1], before.1, mid, k + before.0.constants.len(), code);
        calls_join(code, at, mid, mid + next.0.code.len());
    }
}

/// No call lies on the path through a statement that calls no scene.
proof fn statement_has_no_calls(
    s: StmtView,
    env: Seq<ScopeView>,
    at: nat,
    k: nat,
    code: Seq<Instruction>,
)
    requires
        env.len() >= 1,
        code.len() <= usize::MAX,
        scoped(s),
        !calls(s),
        stmt_code(s, env, at, k) is Ok,
        placed(code, at, stmt_code(s, env, at, k)->Ok_0.0.code),
    ensures
        !calls_on_path(code, at, at + stmt_code(s, env, at, k)->Ok_0.0.code.len()),
    decreases s, 0nat,
{
    let frag = stmt_code(s, env, at, k)->Ok_0.0;
    let end = (at + frag.code.len()) as nat;
    match s {
        StmtView::Print(e) => {
            print_code(e, env, at, k);
            value_then_one_has_no_calls(e, env, k, code, at, Instruction::Print);
        },
        StmtView::Expr(e) => {
            drop_code(e, env, at, k);
            value_then_one_has_no_calls(e, env, k, code, at, Instruction::Pop);
        },
        StmtView::Let(id, e) => {
            let_code(id, e, env, at, k);
            expression_is_plain(e, env, k);
            plain_has_no_calls(code, at, frag.code);
        },
        StmtView::Block(stmts) => {
            braces_code(stmts, env, at, k);
            let inner = block_code(stmts, stmts.len(), nested(env), at, k)->Ok_0;
            let depth = inner.1.last().depth as nat;
            placed_parts(code, at, inner.0.code, pops(depth));
            assert forall|i: int| 0 <= i < stmts.len() implies !calls(#[trigger] stmts[i]) by {
                if calls(stmts[i]) {
                    assert(calls(s));
                }
            }
            statements_have_no_calls(stmts, stmts.len(), nested(env), at, k, code);
            statements_effect(stmts, stmts.len(), nested(env), at, k, code);
            let mid = (at + inner.0.code.len()) as nat;
            plain_has_no_calls(code, mid, pops(depth));
            calls_join(code, at, mid, mid + depth);
        },
        StmtView::When(e, body) => {
            starts_task(s, env, at, k);
            spawn_code_of(s, e, *body, env, at, k);
            assert(code[at as int] == frag.code[0]);
            assert(!calls_on_path(code, end, end));
        },
        StmtView::Wait(e, body) => {
            starts_task(s, env, at, k);
            spawn_code_of(s, e, *body, env, at, k);
            assert(code[at as int] == frag.code[0]);
            assert(!calls_on_path(code, end, end));
        },
        StmtView::At(e, body) => {
            starts_task(s, env, at, k);
            spawn_code_of(s, e, *body, env, at, k);
            assert(code[at as int] == frag.code[0]);
            assert(!calls_on_path(code, end, end));
        },
        StmtView::Publish(path, e) => {
            publish_code(path, e, env, at, k);
            let push = constant_code(crate::value::ValueView::Path(path), k);
            let value = expr_code(e, env, k + 1)->Ok_0;
            let last = seq![Instruction::Publish];
            assert(push.code =~= seq![Instruction::Constant(k as usize)]);
            assert(frag.code =~= push.code + (value.code + last));
            placed_parts(code, at, push.code, value.code + last);
            constant_path(code, at, crate::value::ValueView::Path(path), k);
            plain_has_no_calls(code, at, push.code);
            assert(value.with(Fragment::one(Instruction::Publish)).code =~= value.code + last);
            value_then_one_has_no_calls(e, env, k + 1, code, at + 1, Instruction::Publish);
            calls_join(code, at, at + 1, at + 1 + value.code.len() + 1);
        },
        StmtView::Scene(id, body) => {
            scene_stmt_code(id, *body, env, at, k);
            let inner = stmt_code(*body, bound(bound(env, id), stop_name(id)), at + 4, k + 2)->Ok_0.0;
            let whole = scene_code(at, k, inner).code;
            assert(whole.len() == inner.code.len() + 7);
            assert(code[at as int] == whole[0]);
            assert(code[(at + 1) as int] == whole[1]);
            assert(code[(at + 2) as int] == whole[2]);
            assert(!calls_on_path(code, end, end));
            assert(!calls_on_path(code, at + 2, end));
            assert(!calls_on_path(code, at + 1, end));
        },
        StmtView::Start(_) => {},
        StmtView::Stop(_) => {},
    }
}

/// The address after the code of the statement `s` that starts at `at`.
pub open spec fn end_of(s: StmtView, env: Seq<ScopeView>, at: nat, k: nat) -> nat {
    match stmt_code(s, env, at, k) {
        Ok((frag, _)) => at + frag.code.len(),
        Err(_) => at,
    }
}

/// A task that runs a block to its end has the stack that it had before the
/// block, value for value, whatever the topics deliver and whatever the
/// clock shows: what the block pushed is gone, and nothing else is. This
/// holds of a block whose statements are scoped and which neither starts nor
/// stops a scene; where a scene is called, the path of the task leads through
/// the routines of the scene.
pub proof fn block_runs_balanced(
    stmts: Seq<StmtView>,
    env: Seq<ScopeView>,
    k: nat,
    code: CodeView,
    ctx: ContextView,
    clock: Clock,
    feed: Seq<Seq<u8>>,
)
    requires
        env.len() >= 1,
        code.instructions.len() <= usize::MAX,
        scoped(StmtView::Block(stmts)),
        !calls(StmtView::Block(stmts)),
        stmt_code(StmtView::Block(stmts), env, ctx.ip as nat, k) is Ok,
        placed(
            code.instructions,
            ctx.ip as nat,
            stmt_code(StmtView::Block(stmts), env, ctx.ip as nat, k)->Ok_0.0.code,
        ),
        run(
            ctx,
            code,
            path_steps(
                code.instructions,
                ctx.ip as nat,
                end_of(StmtView::Block(stmts), env, ctx.ip as nat, k),
            ),
            clock,
            feed,
        ) is Some,
    ensures
        reached(
            ctx,
            code,
            path_steps(
                code.instructions,
                ctx.ip as nat,
                end_of(StmtView::Block(stmts), env, ctx.ip as nat, k),
            ),
            clock,
            feed,
        ).stack.len() == ctx.stack.len(),
        reached(
            ctx,
            code,
            path_steps(
                code.instructions,
                ctx.ip as nat,
                end_of(StmtView::Block(stmts), env, ctx.ip as nat, k),
            ),
            clock,
            feed,
        ).ip == end_of(StmtView::Block(stmts), env, ctx.ip as nat, k),
        reached(
            ctx,
            code,
            path_steps(
                code.instructions,
                ctx.ip as nat,
                end_of(StmtView::Block(stmts), env, ctx.ip as nat, k),
            ),
            clock,
            feed,
        ).stack == ctx.stack,
{
    let s = StmtView::Block(stmts);
    let at = ctx.ip as nat;
    statement_effect(s, env, at, k, code.instructions);
    statement_has_no_calls(s, env, at, k, code.instructions);
    path_is_run(ctx, code, clock, feed, end_of(s, env, at, k));
    let last = reached(
        ctx,
        code,
        path_steps(code.instructions, at, end_of(s, env, at, k)),
        clock,
        feed,
    );
    assert(last.stack.take(ctx.stack.len() as int) =~= last.stack);
    assert(ctx.stack.take(ctx.stack.len() as int) =~= ctx.stack);
}

} // verus!
