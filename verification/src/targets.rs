//! Compiled code points only into itself: every address that an instruction
//! or a constant holds is the address of an instruction of the code, and
//! every index of a constant is that of a constant in its pool.

use crate::ast::{ExprView, StmtView};
use crate::compiler::{
    as_code, binary_code, block_code, block_code_of, braces_code, call_code, constant_code,
    drop_code, expr_code, index_code, let_code, literal_code, name_code, path_code, pops,
    print_code, program, publish_code, scene_code, scene_stmt_code, spawn_code_of, starts_task,
    stmt_code, task_code, task_last, task_test, CodeView, Fragment, Instruction,
};
use crate::error::CompileError;
use crate::scope::{bound, nested, ScopeView};
use crate::value::ValueView;
use vstd::prelude::*;

verus! {

/// Whether the instruction keeps to the addresses from `lo` to `hi` and to
/// the constants from `klo` up to, but not including, `khi`.
pub open spec fn points_within(inst: Instruction, lo: nat, hi: nat, klo: nat, khi: nat) -> bool {
    match inst {
        Instruction::Spawn(a) => lo <= a <= hi,
        Instruction::Jump(a) => lo <= a <= hi,
        Instruction::JmpNot(a) => lo <= a <= hi,
        Instruction::Constant(c) => klo <= c < khi,
        _ => true,
    }
}

/// Whether the value, if it is an address, is one from `lo` to `hi`.
pub open spec fn leads_within(value: ValueView, lo: nat, hi: nat) -> bool {
    value matches ValueView::Jump(a) ==> lo <= a <= hi
}

/// Whether every instruction and every constant of the fragment keeps to
/// the addresses from `lo` to `hi` and to the constants from `klo` up to
/// `khi`.
pub open spec fn fragment_within(f: Fragment, lo: nat, hi: nat, klo: nat, khi: nat) -> bool {
    &&& forall|i: int|
        0 <= i < f.code.len() ==> points_within(#[trigger] f.code[i], lo, hi, klo, khi)
    &&& forall|j: int|
        0 <= j < f.constants.len() ==> leads_within(#[trigger] f.constants[j], lo, hi)
}

/// Whether the code points only into itself: each address that a `Spawn`, a
/// `Jump`, a `JmpNot` or a constant holds is that of an instruction, and
/// each `Constant` names a constant that is there.
pub open spec fn self_contained(code: CodeView) -> bool {
    &&& forall|i: int|
        0 <= i < code.instructions.len() ==> match #[trigger] code.instructions[i] {
            Instruction::Spawn(a) => a < code.instructions.len(),
            Instruction::Jump(a) => a < code.instructions.len(),
            Instruction::JmpNot(a) => a < code.instructions.len(),
            Instruction::Constant(c) => c < code.constants.len(),
            _ => true,
        }
    &&& forall|j: int|
        0 <= j < code.constants.len() ==> (#[trigger] code.constants[j] matches ValueView::Jump(a)
            ==> a < code.instructions.len())
}

/// What keeps to narrow bounds keeps to wider ones.
proof fn widen(
    f: Fragment,
    lo: nat,
    hi: nat,
    klo: nat,
    khi: nat,
    lo2: nat,
    hi2: nat,
    klo2: nat,
    khi2: nat,
)
    requires
        fragment_within(f, lo, hi, klo, khi),
        lo2 <= lo,
        hi <= hi2,
        klo2 <= klo,
        khi <= khi2,
    ensures
        fragment_within(f, lo2, hi2, klo2, khi2),
{
    assert forall|i: int| 0 <= i < f.code.len() implies points_within(
        #[trigger] f.code[i],
        lo2,
        hi2,
        klo2,
        khi2,
    ) by {
        assert(points_within(f.code[i], lo, hi, klo, khi));
    }
    assert forall|j: int| 0 <= j < f.constants.len() implies leads_within(
        #[trigger] f.constants[j],
        lo2,
        hi2,
    ) by {
        assert(leads_within(f.constants[j], lo, hi));
    }
}

/// Two fragments that keep to the same bounds do so one after the other.
proof fn join(a: Fragment, b: Fragment, lo: nat, hi: nat, klo: nat, khi: nat)
    requires
        fragment_within(a, lo, hi, klo, khi),
        fragment_within(b, lo, hi, klo, khi),
    ensures
        fragment_within(a.with(b), lo, hi, klo, khi),
{
    let f = a.with(b);
    assert forall|i: int| 0 <= i < f.code.len() implies points_within(
        #[trigger] f.code[i],
        lo,
        hi,
        klo,
        khi,
    ) by {
        if i < a.code.len() {
            assert(f.code[i] == a.code[i]);
        } else {
            assert(f.code[i] == b.code[i - a.code.len()]);
        }
    }
    assert forall|j: int| 0 <= j < f.constants.len() implies leads_within(
        #[trigger] f.constants[j],
        lo,
        hi,
    ) by {
        if j < a.constants.len() {
            assert(f.constants[j] == a.constants[j]);
        } else {
            assert(f.constants[j] == b.constants[j - a.constants.len()]);
        }
    }
}

/// A fragment `a` with the bounds of its own, and a fragment `b` after it
/// with the bounds of its own, keep together to any bounds that hold both.
proof fn join_parts(
    a: Fragment,
    b: Fragment,
    alo: nat,
    ahi: nat,
    blo: nat,
    bhi: nat,
    k: nat,
    lo: nat,
    hi: nat,
)
    requires
        fragment_within(a, alo, ahi, k, k + a.constants.len()),
        fragment_within(
            b,
            blo,
            bhi,
            k + a.constants.len(),
            k + a.constants.len() + b.constants.len(),
        ),
        lo <= alo,
        lo <= blo,
        ahi <= hi,
        bhi <= hi,
    ensures
        fragment_within(a.with(b), lo, hi, k, k + a.with(b).constants.len()),
{
    let khi = k + a.constants.len() + b.constants.len();
    widen(a, alo, ahi, k, k + a.constants.len(), lo, hi, k, khi);
    widen(b, blo, bhi, k + a.constants.len(), khi, lo, hi, k, khi);
    join(a, b, lo, hi, k, khi);
}

/// An instruction that holds neither an address nor an index keeps to any
/// bounds, after any fragment that does.
proof fn join_plain(a: Fragment, inst: Instruction, lo: nat, hi: nat, klo: nat, khi: nat)
    requires
        fragment_within(a, lo, hi, klo, khi),
        points_within(inst, lo, hi, klo, khi),
    ensures
        fragment_within(a.with(Fragment::one(inst)), lo, hi, klo, khi),
        a.with(Fragment::one(inst)).constants.len() == a.constants.len(),
        a.with(Fragment::one(inst)).code.len() == a.code.len() + 1,
{
    join(a, Fragment::one(inst), lo, hi, klo, khi);
}

/// The code that pushes a constant names that constant and nothing else.
proof fn constant_within(value: ValueView, k: nat, lo: nat, hi: nat)
    requires
        k + 1 <= usize::MAX,
        leads_within(value, lo, hi),
    ensures
        fragment_within(constant_code(value, k), lo, hi, k, k + 1),
        constant_code(value, k).constants.len() == 1,
        constant_code(value, k).code.len() == 1,
{
}

/// The code of an expression holds no address, and the constants that it
/// names are those that it adds to the pool.
pub proof fn expression_points_within(e: ExprView, env: Seq<ScopeView>, k: nat, lo: nat, hi: nat)
    requires
        expr_code(e, env, k) is Ok,
        k + expr_code(e, env, k)->Ok_0.constants.len() <= usize::MAX,
    ensures
        fragment_within(
            expr_code(e, env, k)->Ok_0,
            lo,
            hi,
            k,
            k + expr_code(e, env, k)->Ok_0.constants.len(),
        ),
    decreases e,
{
    let f = expr_code(e, env, k)->Ok_0;
    let khi = k + f.constants.len();
    match e {
        ExprView::Ident(id) => {
            name_code(id, env, k);
        },
        ExprView::Binary(lhs, op, rhs) => {
            binary_code(*lhs, op, *rhs, env, k);
            let left = expr_code(*lhs, env, k)->Ok_0;
            let right = expr_code(*rhs, env, k + left.constants.len())->Ok_0;
            expression_points_within(*lhs, env, k, lo, hi);
            expression_points_within(*rhs, env, k + left.constants.len(), lo, hi);
            join_parts(left, right, lo, hi, lo, hi, k, lo, hi);
            join_plain(left.with(right), Instruction::Equal, lo, hi, k, khi);
        },
        ExprView::Path(path) => {
            path_code(path, env, k);
            constant_within(ValueView::Path(path), k, lo, hi);
            join_plain(constant_code(ValueView::Path(path), k), Instruction::Get, lo, hi, k, khi);
        },
        ExprView::As(init, id, cont) => {
            as_code(*init, id, *cont, env, k);
            let first = expr_code(*init, env, k)->Ok_0;
            let inner = bound(nested(env), id);
            let second = expr_code(*cont, inner, k + first.constants.len())->Ok_0;
            expression_points_within(*init, env, k, lo, hi);
            expression_points_within(*cont, inner, k + first.constants.len(), lo, hi);
            join_parts(first, second, lo, hi, lo, hi, k, lo, hi);
            join_plain(first.with(second), Instruction::Swap, lo, hi, k, khi);
            join_plain(
                first.with(second).with(Fragment::one(Instruction::Swap)),
                Instruction::Pop,
                lo,
                hi,
                k,
                khi,
            );
        },
        ExprView::Index(obj, prop) => {
            index_code(*obj, prop, env, k);
            let first = expr_code(*obj, env, k)->Ok_0;
            let key = constant_code(ValueView::Str(prop), k + first.constants.len());
            expression_points_within(*obj, env, k, lo, hi);
            constant_within(ValueView::Str(prop), k + first.constants.len(), lo, hi);
            join_parts(first, key, lo, hi, lo, hi, k, lo, hi);
            join_plain(first.with(key), Instruction::Index, lo, hi, k, khi);
        },
        _ => {
            literal_code(e, env, k);
            constant_within(crate::literal::literal_of(e)->Ok_0, k, lo, hi);
        },
    }
}

/// The pops that end a block hold neither an address nor an index.
proof fn pops_within(n: nat, lo: nat, hi: nat, klo: nat, khi: nat)
    ensures
        fragment_within(Fragment::of(pops(n)), lo, hi, klo, khi),
        Fragment::of(pops(n)).constants.len() == 0,
        Fragment::of(pops(n)).code.len() == n,
{
}

/// The code of a statement whose first instruction has the address `at`
/// holds only addresses from `at` to the address after its last
/// instruction, and names only the constants that it adds to the pool.
pub proof fn statement_points_within(s: StmtView, env: Seq<ScopeView>, at: nat, k: nat)
    requires
        stmt_code(s, env, at, k) is Ok,
        at + stmt_code(s, env, at, k)->Ok_0.0.code.len() <= usize::MAX,
        k + stmt_code(s, env, at, k)->Ok_0.0.constants.len() <= usize::MAX,
    ensures
        fragment_within(
            stmt_code(s, env, at, k)->Ok_0.0,
            at,
            at + stmt_code(s, env, at, k)->Ok_0.0.code.len(),
            k,
            k + stmt_code(s, env, at, k)->Ok_0.0.constants.len(),
        ),
    decreases s, 0nat,
{
    let f = stmt_code(s, env, at, k)->Ok_0.0;
    let hi = at + f.code.len();
    let khi = k + f.constants.len();
    match s {
        StmtView::Print(e) => {
            print_code(e, env, at, k);
            expression_points_within(e, env, k, at, hi);
            join_plain(expr_code(e, env, k)->Ok_0, Instruction::Print, at, hi, k, khi);
        },
        StmtView::Expr(e) => {
            drop_code(e, env, at, k);
            expression_points_within(e, env, k, at, hi);
            join_plain(expr_code(e, env, k)->Ok_0, Instruction::Pop, at, hi, k, khi);
        },
        StmtView::Let(id, e) => {
            let_code(id, e, env, at, k);
            expression_points_within(e, env, k, at, hi);
        },
        StmtView::Block(stmts) => {
            braces_code(stmts, env, at, k);
            let (body, inner) = block_code(stmts, stmts.len(), nested(env), at, k)->Ok_0;
            let tail = Fragment::of(pops(inner.last().depth as nat));
            pops_within(inner.last().depth as nat, at, hi, k + body.constants.len(), khi);
            statements_point_within(stmts, stmts.len(), nested(env), at, k);
            join_parts(body, tail, at, at + body.code.len(), at, hi, k, at, hi);
        },
        StmtView::When(e, body) => {
            starts_task(s, env, at, k);
            task_points_within(s, e, *body, env, at, k);
        },
        StmtView::Wait(e, body) => {
            starts_task(s, env, at, k);
            task_points_within(s, e, *body, env, at, k);
        },
        StmtView::At(e, body) => {
            starts_task(s, env, at, k);
            task_points_within(s, e, *body, env, at, k);
        },
        StmtView::Publish(path, e) => {
            publish_code(path, e, env, at, k);
            let topic = constant_code(ValueView::Path(path), k);
            let value = expr_code(e, env, k + 1)->Ok_0;
            constant_within(ValueView::Path(path), k, at, hi);
            expression_points_within(e, env, k + 1, at, hi);
            join_parts(topic, value, at, hi, at, hi, k, at, hi);
            join_plain(topic.with(value), Instruction::Publish, at, hi, k, khi);
        },
        StmtView::Scene(id, body) => {
            scene_stmt_code(id, *body, env, at, k);
            let scopes = bound(bound(env, id), crate::compiler::stop_name(id));
            let inner = stmt_code(*body, scopes, at + 4, k + 2)->Ok_0.0;
            assert(f == scene_code(at, k, inner));
            statement_points_within(*body, scopes, at + 4, k + 2);
            scene_within(at, k, inner);
        },
        StmtView::Start(id) => {
            call_code(id, env, at, k);
        },
        StmtView::Stop(id) => {
            call_code(id, env, at, k);
        },
    }
}

/// A scene around a body that keeps to its bounds keeps to its own.
proof fn scene_within(at: nat, k: nat, inner: Fragment)
    requires
        at + inner.code.len() + 7 <= usize::MAX,
        k + inner.constants.len() + 2 <= usize::MAX,
        fragment_within(
            inner,
            at + 4,
            at + 4 + inner.code.len(),
            k + 2,
            k + 2 + inner.constants.len(),
        ),
    ensures
        scene_code(at, k, inner).code.len() == inner.code.len() + 7,
        scene_code(at, k, inner).constants.len() == inner.constants.len() + 2,
        fragment_within(
            scene_code(at, k, inner),
            at,
            at + inner.code.len() + 7,
            k,
            k + inner.constants.len() + 2,
        ),
{
    let hi = at + inner.code.len() + 7;
    let khi = k + inner.constants.len() + 2;
    let head = Fragment {
        code: seq![
            Instruction::Constant(k as usize),
            Instruction::Constant((k + 1) as usize),
            Instruction::Jump((at + inner.code.len() + 7) as usize),
            Instruction::SceneContext,
        ],
        constants: seq![
            ValueView::Jump((at + 3) as usize),
            ValueView::Jump((at + inner.code.len() + 5) as usize),
        ],
    };
    let tail = Fragment::of(seq![Instruction::Return, Instruction::Stop, Instruction::Return]);
    assert(fragment_within(head, at, hi, k, khi));
    assert(fragment_within(tail, at, hi, k, khi));
    widen(
        inner,
        at + 4,
        at + 4 + inner.code.len(),
        k + 2,
        k + 2 + inner.constants.len(),
        at,
        hi,
        k,
        khi,
    );
    join(head, inner, at, hi, k, khi);
    join(head.with(inner), tail, at, hi, k, khi);
}

/// The code of a task keeps to its own addresses and constants.
proof fn task_points_within(
    s: StmtView,
    e: ExprView,
    body: StmtView,
    env: Seq<ScopeView>,
    at: nat,
    k: nat,
)
    requires
        crate::compiler::spawn_code(s, e, body, env, at, k) is Ok,
        at + crate::compiler::spawn_code(s, e, body, env, at, k)->Ok_0.0.code.len() <= usize::MAX,
        k + crate::compiler::spawn_code(s, e, body, env, at, k)->Ok_0.0.constants.len()
            <= usize::MAX,
    ensures
        fragment_within(
            crate::compiler::spawn_code(s, e, body, env, at, k)->Ok_0.0,
            at,
            at + crate::compiler::spawn_code(s, e, body, env, at, k)->Ok_0.0.code.len(),
            k,
            k + crate::compiler::spawn_code(s, e, body, env, at, k)->Ok_0.0.constants.len(),
        ),
    decreases body, 1nat,
{
    spawn_code_of(s, e, body, env, at, k);
    let head = expr_code(e, env, k)->Ok_0;
    let inner = stmt_code(body, env, at + head.code.len() + 2, k + head.constants.len())->Ok_0.0;
    let test = task_test(s, at);
    let last = task_last(s, at);
    let f = task_code(at, head, test, inner, last);
    let hi = at + head.code.len() + inner.code.len() + 3;
    let khi = k + head.constants.len() + inner.constants.len();
    assert(f.code.len() == head.code.len() + inner.code.len() + 3);
    assert(f.constants.len() == head.constants.len() + inner.constants.len());
    expression_points_within(e, env, k, at, hi);
    statement_points_within(body, env, at + head.code.len() + 2, k + head.constants.len());
    join_plain(head, test, at, hi, k, k + head.constants.len());
    join_parts(
        head.with(Fragment::one(test)),
        inner,
        at,
        hi,
        at + head.code.len() + 2,
        at + head.code.len() + 2 + inner.code.len(),
        k,
        at,
        hi,
    );
    join_plain(head.with(Fragment::one(test)).with(inner), last, at, hi, k, khi);
    let spawn = Fragment::one(Instruction::Spawn(hi as usize));
    assert(fragment_within(spawn, at, hi, k, khi));
    join(
        spawn,
        head.with(Fragment::one(test)).with(inner).with(Fragment::one(last)),
        at,
        hi,
        k,
        khi,
    );
}

/// The code of the first `n` statements of a block keeps to its own
/// addresses and constants.
proof fn statements_point_within(
    stmts: Seq<StmtView>,
    n: nat,
    env: Seq<ScopeView>,
    at: nat,
    k: nat,
)
    requires
        n <= stmts.len(),
        block_code(stmts, n, env, at, k) is Ok,
        at + block_code(stmts, n, env, at, k)->Ok_0.0.code.len() <= usize::MAX,
        k + block_code(stmts, n, env, at, k)->Ok_0.0.constants.len() <= usize::MAX,
    ensures
        fragment_within(
            block_code(stmts, n, env, at, k)->Ok_0.0,
            at,
            at + block_code(stmts, n, env, at, k)->Ok_0.0.code.len(),
            k,
            k + block_code(stmts, n, env, at, k)->Ok_0.0.constants.len(),
        ),
    decreases stmts, n,
{
    block_code_of(stmts, n, env, at, k);
    if n > 0 {
        let (before, scopes) = block_code(stmts, (n - 1) as nat, env, at, k)->Ok_0;
        let frag = stmt_code(
            stmts[n - 1],
            scopes,
            at + before.code.len(),
            k + before.constants.len(),
        )->Ok_0.0;
        statements_point_within(stmts, (n - 1) as nat, env, at, k);
        statement_points_within(
            stmts[n - 1],
            scopes,
            at + before.code.len(),
            k + before.constants.len(),
        );
        join_parts(
            before,
            frag,
            at,
            at + before.code.len(),
            at + before.code.len(),
            at + before.code.len() + frag.code.len(),
            k,
            at,
            at + before.code.len() + frag.code.len(),
        );
    }
}

/// Every address that a `Spawn`, a `Jump`, a `JmpNot` or a constant of a
/// compiled script holds is the address of one of its instructions, and
/// every `Constant` names a constant of its pool, wherever the code and the
/// pool are no longer than an address can say.
pub proof fn compiled_code_points_within(ast: StmtView, code: CodeView)
    requires
        program(ast) == Ok::<CodeView, CompileError>(code),
        code.instructions.len() <= usize::MAX,
        code.constants.len() <= usize::MAX,
    ensures
        self_contained(code),
{
    let f = stmt_code(ast, crate::scope::root_scopes(), 0, 0)->Ok_0.0;
    assert(code.instructions =~= f.code + seq![Instruction::Term]);
    assert(code.constants =~= f.constants + Seq::<ValueView>::empty());
    assert(f.constants + Seq::<ValueView>::empty() =~= f.constants);
    statement_points_within(ast, crate::scope::root_scopes(), 0, 0);
    let all = code.instructions;
    assert forall|i: int| 0 <= i < all.len() implies match #[trigger] all[i] {
        Instruction::Spawn(a) => a < all.len(),
        Instruction::Jump(a) => a < all.len(),
        Instruction::JmpNot(a) => a < all.len(),
        Instruction::Constant(c) => c < code.constants.len(),
        _ => true,
    } by {
        if i < f.code.len() {
            assert(points_within(f.code[i], 0, f.code.len(), 0, f.constants.len()));
        }
    }
    assert forall|j: int| 0 <= j < code.constants.len() implies (
    #[trigger] code.constants[j] matches ValueView::Jump(a) ==> a < all.len()) by {
        assert(leads_within(f.constants[j], 0, f.code.len()));
    }
}

} // verus!
