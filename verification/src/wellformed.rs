//! What holds of every value in a running script: each object keeps its keys
//! in ascending order, none twice. The compiler puts only such values into
//! the pool of constants, payloads carry only such values, and no step of a
//! task makes another kind.

use crate::ast::{ExprView, StmtView};
use crate::clock::Clock;
use crate::compiler::{
    as_code, binary_code, block_code, block_code_of, braces_code, call_code,
    drop_code, expr_code, index_code, let_code, literal_code, name_code, path_code, print_code,
    program, publish_code, scene_code, scene_stmt_code, spawn_code_of, starts_task, stmt_code,
    stop_name, CodeView, Instruction,
};
use crate::json::{document_value_is_well_formed, json_document};
use crate::literal::{literal_is_well_formed, literal_of};
use crate::payload::value_of_payload;
use crate::scope::{bound, nested, root_scopes, ScopeView};
use crate::value::{property, well_formed, ValueView};
use crate::vm::{receive_spec, step_spec, ContextView, Effect};
use vstd::prelude::*;

verus! {

/// Whether every one of the values is well-formed.
pub open spec fn all_well_formed(values: Seq<ValueView>) -> bool {
    forall|i: int| 0 <= i < values.len() ==> well_formed(#[trigger] values[i])
}

/// What an object holds under a key is one of the values of its properties.
proof fn property_is_held(props: Seq<(Seq<char>, ValueView)>, key: Seq<char>)
    requires
        property(props, key) is Some,
    ensures
        exists|i: int| 0 <= i < props.len() && (#[trigger] props[i]).1 == property(props, key)->0,
    decreases props.len(),
{
    if props[0].0 == key {
        assert(props[0].1 == property(props, key)->0);
    } else {
        let rest = props.drop_first();
        property_is_held(rest, key);
        let i = choose|i: int| 0 <= i < rest.len() && (#[trigger] rest[i]).1 == property(rest, key)->0;
        assert(props[i + 1] == rest[i]);
    }
}

/// Well-formed values one after the other are well-formed.
proof fn joined_are_well_formed(a: Seq<ValueView>, b: Seq<ValueView>)
    requires
        all_well_formed(a),
        all_well_formed(b),
    ensures
        all_well_formed(a + b),
{
    assert forall|i: int| 0 <= i < (a + b).len() implies well_formed(#[trigger] (a + b)[i]) by {
        if i < a.len() {
            assert((a + b)[i] == a[i]);
        } else {
            assert((a + b)[i] == b[i - a.len()]);
        }
    }
}

/// The constants of the code of an expression are well-formed.
pub proof fn expression_constants_are_well_formed(e: ExprView, env: Seq<ScopeView>, k: nat)
    requires
        expr_code(e, env, k) is Ok,
    ensures
        all_well_formed(expr_code(e, env, k)->Ok_0.constants),
    decreases e,
{
    let frag = expr_code(e, env, k)->Ok_0;
    match e {
        ExprView::Ident(id) => {
            name_code(id, env, k);
        },
        ExprView::Binary(lhs, op, rhs) => {
            binary_code(*lhs, op, *rhs, env, k);
            let left = expr_code(*lhs, env, k)->Ok_0;
            let right = expr_code(*rhs, env, k + left.constants.len())->Ok_0;
            expression_constants_are_well_formed(*lhs, env, k);
            expression_constants_are_well_formed(*rhs, env, k + left.constants.len());
            joined_are_well_formed(left.constants, right.constants);
            assert(frag.constants =~= left.constants + right.constants);
        },
        ExprView::Path(path) => {
            path_code(path, env, k);
            assert(frag.constants =~= seq![ValueView::Path(path)]);
        },
        ExprView::As(init, id, cont) => {
            as_code(*init, id, *cont, env, k);
            let first = expr_code(*init, env, k)->Ok_0;
            let second = expr_code(*cont, bound(nested(env), id), k + first.constants.len())->Ok_0;
            expression_constants_are_well_formed(*init, env, k);
            expression_constants_are_well_formed(
                *cont,
                bound(nested(env), id),
                k + first.constants.len(),
            );
            joined_are_well_formed(first.constants, second.constants);
            assert(frag.constants =~= first.constants + second.constants);
        },
        ExprView::Index(obj, prop) => {
            index_code(*obj, prop, env, k);
            let first = expr_code(*obj, env, k)->Ok_0;
            expression_constants_are_well_formed(*obj, env, k);
            joined_are_well_formed(first.constants, seq![ValueView::Str(prop)]);
            assert(frag.constants =~= first.constants + seq![ValueView::Str(prop)]);
        },
        _ => {
            literal_code(e, env, k);
            literal_is_well_formed(e);
            assert(frag.constants =~= seq![literal_of(e)->Ok_0]);
        },
    }
}

/// The constants of the code of the first `n` statements of a block are
/// well-formed.
proof fn block_constants_are_well_formed(
    stmts: Seq<StmtView>,
    n: nat,
    env: Seq<ScopeView>,
    at: nat,
    k: nat,
)
    requires
        n <= stmts.len(),
        block_code(stmts, n, env, at, k) is Ok,
    ensures
        all_well_formed(block_code(stmts, n, env, at, k)->Ok_0.0.constants),
    decreases stmts, n,
{
    block_code_of(stmts, n, env, at, k);
    if n > 0 {
        let before = block_code(stmts, (n - 1) as nat, env, at, k)->Ok_0;
        let next = stmt_code(
            stmts[n - 1],
            before.1,
            at + before.0.code.len(),
            k + before.0.constants.len(),
        )->Ok_0;
        block_constants_are_well_formed(stmts, (n - 1) as nat, env, at, k);
        statement_constants_are_well_formed(
            stmts[n - 1],
            before.1,
            at + before.0.code.len(),
            k + before.0.constants.len(),
        );
        joined_are_well_formed(before.0.constants, next.0.constants);
    }
}

/// The constants of the code of a task are well-formed.
proof fn task_constants_are_well_formed(
    s: StmtView,
    e: ExprView,
    body: StmtView,
    env: Seq<ScopeView>,
    at: nat,
    k: nat,
)
    requires
        stmt_code(s, env, at, k) is Ok,
        s == StmtView::When(e, Box::new(body)) || s == StmtView::Wait(e, Box::new(body)) || s
            == StmtView::At(e, Box::new(body)),
    ensures
        all_well_formed(stmt_code(s, env, at, k)->Ok_0.0.constants),
    decreases body, 1nat,
{
    starts_task(s, env, at, k);
    spawn_code_of(s, e, body, env, at, k);
    let head = expr_code(e, env, k)->Ok_0;
    let inner = stmt_code(body, env, at + head.code.len() + 2, k + head.constants.len())->Ok_0.0;
    expression_constants_are_well_formed(e, env, k);
    statement_constants_are_well_formed(
        body,
        env,
        at + head.code.len() + 2,
        k + head.constants.len(),
    );
    joined_are_well_formed(head.constants, inner.constants);
    assert(stmt_code(s, env, at, k)->Ok_0.0.constants =~= head.constants + inner.constants);
}

/// The constants of the code of a statement are well-formed.
pub proof fn statement_constants_are_well_formed(
    s: StmtView,
    env: Seq<ScopeView>,
    at: nat,
    k: nat,
)
    requires
        stmt_code(s, env, at, k) is Ok,
    ensures
        all_well_formed(stmt_code(s, env, at, k)->Ok_0.0.constants),
    decreases s, 0nat,
{
    let frag = stmt_code(s, env, at, k)->Ok_0.0;
    match s {
        StmtView::Print(e) => {
            print_code(e, env, at, k);
            expression_constants_are_well_formed(e, env, k);
            assert(frag.constants =~= expr_code(e, env, k)->Ok_0.constants);
        },
        StmtView::Expr(e) => {
            drop_code(e, env, at, k);
            expression_constants_are_well_formed(e, env, k);
            assert(frag.constants =~= expr_code(e, env, k)->Ok_0.constants);
        },
        StmtView::Let(id, e) => {
            let_code(id, e, env, at, k);
            expression_constants_are_well_formed(e, env, k);
        },
        StmtView::Block(stmts) => {
            braces_code(stmts, env, at, k);
            block_constants_are_well_formed(stmts, stmts.len(), nested(env), at, k);
            assert(frag.constants =~= block_code(
                stmts,
                stmts.len(),
                nested(env),
                at,
                k,
            )->Ok_0.0.constants);
        },
        StmtView::When(e, body) => {
            task_constants_are_well_formed(s, e, *body, env, at, k);
        },
        StmtView::Wait(e, body) => {
            task_constants_are_well_formed(s, e, *body, env, at, k);
        },
        StmtView::At(e, body) => {
            task_constants_are_well_formed(s, e, *body, env, at, k);
        },
        StmtView::Publish(path, e) => {
            publish_code(path, e, env, at, k);
            let value = expr_code(e, env, k + 1)->Ok_0;
            expression_constants_are_well_formed(e, env, k + 1);
            joined_are_well_formed(seq![ValueView::Path(path)], value.constants);
            assert(frag.constants =~= seq![ValueView::Path(path)] + value.constants);
        },
        StmtView::Scene(id, body) => {
            scene_stmt_code(id, *body, env, at, k);
            let scopes = bound(bound(env, id), stop_name(id));
            let inner = stmt_code(*body, scopes, at + 4, k + 2)->Ok_0.0;
            statement_constants_are_well_formed(*body, scopes, at + 4, k + 2);
            let head = seq![
                ValueView::Jump((at + 3) as usize),
                ValueView::Jump((at + inner.code.len() + 5) as usize),
            ];
            joined_are_well_formed(head, inner.constants);
            assert(scene_code(at, k, inner).constants =~= head + inner.constants);
        },
        StmtView::Start(id) => {
            call_code(id, env, at, k);
        },
        StmtView::Stop(id) => {
            call_code(id, env, at, k);
        },
    }
}

/// Every constant of the code of a script is well-formed.
pub proof fn constants_are_well_formed(ast: StmtView)
    requires
        program(ast) is Ok,
    ensures
        all_well_formed(program(ast)->Ok_0.constants),
{
    statement_constants_are_well_formed(ast, root_scopes(), 0, 0);
    let frag = stmt_code(ast, root_scopes(), 0, 0)->Ok_0.0;
    assert(program(ast)->Ok_0.constants =~= frag.constants);
}

/// A step of a task whose values are well-formed leaves it with well-formed
/// values, and so it starts the task that it spawns.
pub proof fn step_keeps_well_formed(ctx: ContextView, code: CodeView, clock: Clock)
    requires
        all_well_formed(ctx.stack),
        all_well_formed(code.constants),
        step_spec(ctx, code, clock) is Ok,
    ensures
        all_well_formed(step_spec(ctx, code, clock)->Ok_0.1.stack),
        step_spec(ctx, code, clock)->Ok_0.0 matches Effect::Spawn(child) ==> all_well_formed(
            child.stack,
        ),
{
    let next = step_spec(ctx, code, clock)->Ok_0.1;
    let depth = ctx.stack.len();
    assert forall|i: int| 0 <= i < next.stack.len() implies well_formed(#[trigger] next.stack[i]) by {
        if i < depth && next.stack[i] == ctx.stack[i] {
        } else {
            match code.instructions[ctx.ip as int] {
                Instruction::Index => {
                    if let ValueView::Object(props) = ctx.top(1) {
                        if let ValueView::Str(key) = ctx.top(0) {
                            property_is_held(props, key);
                            assert(well_formed(ctx.stack[depth - 2]));
                        }
                    }
                },
                Instruction::Constant(c) => {
                    assert(well_formed(code.constants[c as int]));
                },
                Instruction::Pick(d) => {
                    assert(well_formed(ctx.stack[depth - 1 - d]));
                },
                Instruction::Swap => {
                    assert(well_formed(ctx.stack[depth - 1]));
                    assert(well_formed(ctx.stack[depth - 2]));
                },
                _ => {},
            }
        }
    }
}

/// A payload gives a task whose values are well-formed a well-formed value
/// more.
pub proof fn receive_keeps_well_formed(ctx: ContextView, payload: Seq<u8>)
    requires
        all_well_formed(ctx.stack),
        receive_spec(ctx, payload) is Ok,
    ensures
        all_well_formed(receive_spec(ctx, payload)->Ok_0.stack),
{
    let v = value_of_payload(payload)->Ok_0;
    if let Some(doc) = json_document(payload) {
        document_value_is_well_formed(doc);
    }
    joined_are_well_formed(ctx.stack, seq![v]);
    assert(receive_spec(ctx, payload)->Ok_0.stack =~= ctx.stack + seq![v]);
}

} // verus!
