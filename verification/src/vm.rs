//! The virtual machine: what one task does with one instruction.
//!
//! A task never touches the outside world. Where an instruction prints, waits,
//! reads a topic, writes one, starts a task or cancels a group, `step` says so
//! in its result and the host carries it out.

use crate::clock::{wait_of, Clock};
use crate::compiler::{values_view, Code, CodeView, Instruction};
use crate::error::RuntimeError;
use crate::payload::{payload_of, value_of_payload};
use crate::value::{
    find_property, object_view, property, value_equal, value_text, Duration,
    TimeOfDay, Value, ValueView,
};
use vstd::prelude::*;

verus! {

/// The mathematical content of a [`ThreadContext`].
pub struct ContextView {
    pub ip: usize,
    pub stack: Seq<ValueView>,
    pub call_stack: Seq<usize>,
}

/// What a task owns: where it is in the code, its operand stack, and the
/// addresses that its calls return to.
#[derive(Debug, PartialEq)]
pub struct ThreadContext {
    /// The instruction to run next.
    pub ip: usize,
    /// The operands, the last one on top.
    pub stack: Vec<Value>,
    /// Where each call that has not returned came from, the last one on top.
    pub call_stack: Vec<usize>,
}

impl View for ThreadContext {
    type V = ContextView;

    open spec fn view(&self) -> ContextView {
        ContextView {
            ip: self.ip,
            stack: values_view(self.stack@),
            call_stack: self.call_stack@,
        }
    }
}

/// The mathematical content of a [`StepResult`].
pub enum Effect {
    Continue,
    SceneContext,
    Break,
    Print(Seq<char>),
    /// Wait for this many nanoseconds.
    Wait(nat),
    Get(Seq<char>),
    Publish(Seq<char>, Seq<u8>),
    Spawn(ContextView),
    Stop,
}

/// What a task asks of its host after one instruction.
#[derive(Debug, PartialEq)]
pub enum StepResult {
    /// Nothing: run the next instruction.
    Continue,
    /// Put the task into a new group of its own, then go on.
    SceneContext,
    /// The task has ended.
    Break,
    /// Print the text as one line, then go on.
    Print(String),
    /// Go on when the span of time has passed.
    Wait(Duration),
    /// Hand the next payload of the topic to `receive`, then go on.
    Get(String),
    /// Send the payload to the topic, then go on.
    Publish(String, Vec<u8>),
    /// Run the new task in the group of this one, and go on.
    Spawn(ThreadContext),
    /// Cancel every task of the group that the task is in.
    Stop,
}

impl View for StepResult {
    type V = Effect;

    open spec fn view(&self) -> Effect {
        match self {
            StepResult::Continue => Effect::Continue,
            StepResult::SceneContext => Effect::SceneContext,
            StepResult::Break => Effect::Break,
            StepResult::Print(text) => Effect::Print(text@),
            StepResult::Wait(d) => Effect::Wait(d.as_nanos()),
            StepResult::Get(path) => Effect::Get(path@),
            StepResult::Publish(path, payload) => Effect::Publish(path@, payload@),
            StepResult::Spawn(child) => Effect::Spawn(child@),
            StepResult::Stop => Effect::Stop,
        }
    }
}

impl ContextView {
    /// The value that lies `depth` places below the top of the stack.
    pub open spec fn top(self, depth: int) -> ValueView {
        self.stack[self.stack.len() - 1 - depth]
    }

    /// The task at another instruction.
    pub open spec fn at(self, ip: usize) -> ContextView {
        ContextView { ip, ..self }
    }

    /// The task at the instruction after the present one.
    pub open spec fn advanced(self) -> ContextView {
        ContextView { ip: (self.ip + 1) as usize, ..self }
    }

    /// The task without the `n` values on top of its stack.
    pub open spec fn dropped(self, n: int) -> ContextView {
        ContextView { stack: self.stack.take(self.stack.len() - n), ..self }
    }

    /// The task with `v` on top of its stack.
    pub open spec fn pushed(self, v: ValueView) -> ContextView {
        ContextView { stack: self.stack.push(v), ..self }
    }

    /// The task that a spawn starts: at the instruction after the spawn, with
    /// a copy of the stack and no calls to return from.
    pub open spec fn child(self) -> ContextView {
        ContextView { ip: (self.ip + 1) as usize, stack: self.stack, call_stack: Seq::empty() }
    }
}

/// What the instruction at the task's instruction pointer does: what it asks of
/// the host and the task afterwards, or why the task cannot go on. `clock` is
/// the reading of the wall clock that `At` works from; no other instruction
/// looks at it.
pub open spec fn step_spec(ctx: ContextView, code: CodeView, clock: Clock) -> Result<
    (Effect, ContextView),
    RuntimeError,
> {
    if ctx.ip >= code.instructions.len() {
        Err(RuntimeError::InstructionOutOfRange)
    } else {
        let next = ctx.advanced();
        let depth = ctx.stack.len();
        match code.instructions[ctx.ip as int] {
            Instruction::Constant(k) => if k < code.constants.len() {
                Ok((Effect::Continue, next.pushed(code.constants[k as int])))
            } else {
                Err(RuntimeError::ConstantOutOfRange)
            },
            Instruction::Print => if depth < 1 {
                Err(RuntimeError::StackUnderflow)
            } else {
                Ok((Effect::Print(value_text(ctx.top(0))), next.dropped(1)))
            },
            Instruction::Pick(d) => if d < depth {
                Ok((Effect::Continue, next.pushed(ctx.top(d as int))))
            } else {
                Err(RuntimeError::StackUnderflow)
            },
            Instruction::Pop => if depth < 1 {
                Err(RuntimeError::StackUnderflow)
            } else {
                Ok((Effect::Continue, next.dropped(1)))
            },
            Instruction::Swap => if depth < 2 {
                Err(RuntimeError::StackUnderflow)
            } else {
                Ok((Effect::Continue, next.dropped(2).pushed(ctx.top(0)).pushed(ctx.top(1))))
            },
            Instruction::Spawn(resume) => Ok((Effect::Spawn(ctx.child()), ctx.at(resume))),
            Instruction::Jump(ip) => Ok((Effect::Continue, ctx.at(ip))),
            Instruction::JmpNot(ip) => if depth < 1 {
                Err(RuntimeError::StackUnderflow)
            } else {
                match ctx.top(0) {
                    ValueView::Bool(true) => Ok((Effect::Continue, next.dropped(1))),
                    ValueView::Bool(false) => Ok((Effect::Continue, ctx.at(ip).dropped(1))),
                    _ => Err(RuntimeError::TypeError),
                }
            },
            Instruction::Call => if depth < 1 {
                Err(RuntimeError::StackUnderflow)
            } else {
                match ctx.top(0) {
                    ValueView::Jump(ip) => Ok(
                        (
                            Effect::Continue,
                            ContextView {
                                ip,
                                stack: ctx.dropped(1).stack,
                                call_stack: ctx.call_stack.push((ctx.ip + 1) as usize),
                            },
                        ),
                    ),
                    _ => Err(RuntimeError::TypeError),
                }
            },
            Instruction::Return => if ctx.call_stack.len() < 1 {
                Err(RuntimeError::ReturnWithoutCall)
            } else {
                Ok(
                    (
                        Effect::Continue,
                        ContextView {
                            ip: ctx.call_stack.last(),
                            stack: ctx.stack,
                            call_stack: ctx.call_stack.drop_last(),
                        },
                    ),
                )
            },
            Instruction::Term => Ok((Effect::Break, next)),
            Instruction::Wait => if depth < 1 {
                Err(RuntimeError::StackUnderflow)
            } else {
                match ctx.top(0) {
                    ValueView::Duration(nanos) => Ok((Effect::Wait(nanos), next.dropped(1))),
                    _ => Err(RuntimeError::TypeError),
                }
            },
            Instruction::At => if depth < 1 {
                Err(RuntimeError::StackUnderflow)
            } else {
                match ctx.top(0) {
                    ValueView::Time(TimeOfDay::HM(hour, minute)) => if hour >= 24 || minute >= 60 {
                        Err(RuntimeError::UnknownTime)
                    } else {
                        match wait_of(clock) {
                            Ok(nanos) => Ok((Effect::Wait(nanos), next.dropped(1))),
                            Err(e) => Err(e),
                        }
                    },
                    ValueView::Time(_) => Err(RuntimeError::UnknownTime),
                    _ => Err(RuntimeError::TypeError),
                }
            },
            Instruction::Publish => if depth < 2 {
                Err(RuntimeError::StackUnderflow)
            } else {
                match (payload_of(ctx.top(0)), ctx.top(1)) {
                    (None, _) => Err(RuntimeError::NotTransmissible),
                    (Some(payload), ValueView::Path(path)) => Ok(
                        (Effect::Publish(path, payload), next.dropped(2)),
                    ),
                    _ => Err(RuntimeError::TypeError),
                }
            },
            Instruction::Get => if depth < 1 {
                Err(RuntimeError::StackUnderflow)
            } else {
                match ctx.top(0) {
                    ValueView::Path(path) => Ok((Effect::Get(path), next.dropped(1))),
                    _ => Err(RuntimeError::TypeError),
                }
            },
            Instruction::Stop => Ok((Effect::Stop, next)),
            Instruction::SceneContext => Ok((Effect::SceneContext, next)),
            Instruction::Equal => if depth < 2 {
                Err(RuntimeError::StackUnderflow)
            } else {
                Ok(
                    (
                        Effect::Continue,
                        next.dropped(2).pushed(
                            ValueView::Bool(value_equal(ctx.top(0), ctx.top(1))),
                        ),
                    ),
                )
            },
            Instruction::Index => if depth < 2 {
                Err(RuntimeError::StackUnderflow)
            } else {
                match (ctx.top(0), ctx.top(1)) {
                    (ValueView::Str(key), ValueView::Object(props)) => match property(props, key) {
                        Some(v) => Ok((Effect::Continue, next.dropped(2).pushed(v))),
                        None => Err(RuntimeError::MissingProperty),
                    },
                    _ => Err(RuntimeError::TypeError),
                }
            },
        }
    }
}

/// Whether `r` and the task `post` are what `step_spec` gives for the task
/// `pre`. A task that cannot go on is left as it was.
pub open spec fn stepped(
    pre: ContextView,
    code: CodeView,
    clock: Clock,
    r: Result<StepResult, RuntimeError>,
    post: ContextView,
) -> bool {
    match step_spec(pre, code, clock) {
        Ok((effect, next)) => r matches Ok(res) && res@ == effect && post == next,
        Err(e) => r matches Err(f) && f == e && post == pre,
    }
}

/// What a task does with a payload that its topic received: it pushes the
/// value that the payload carries, or cannot go on.
pub open spec fn receive_spec(ctx: ContextView, payload: Seq<u8>) -> Result<
    ContextView,
    RuntimeError,
> {
    match value_of_payload(payload) {
        Ok(v) => Ok(ctx.pushed(v)),
        Err(e) => Err(e),
    }
}

impl ThreadContext {
    /// A task at `ip` with nothing on its stack.
    pub fn new(ip: usize) -> (ctx: ThreadContext)
        ensures
            ctx@ == (ContextView { ip, stack: Seq::empty(), call_stack: Seq::empty() }),
    {
        let ctx = ThreadContext { ip, stack: Vec::new(), call_stack: Vec::new() };
        assert(ctx@.stack =~= Seq::empty());
        ctx
    }

    /// A new task at `ip` whose stack holds what this one's holds, with no
    /// calls to return from.
    pub fn spawn(&self, ip: usize) -> (child: ThreadContext)
        ensures
            child@ == (ContextView { ip, stack: self@.stack, call_stack: Seq::empty() }),
    {
        let mut stack: Vec<Value> = Vec::new();
        let mut i: usize = 0;
        while i < self.stack.len()
            invariant
                i <= self.stack.len(),
                stack.len() == i,
                forall|j: int| 0 <= j < i ==> stack@[j]@ == self.stack@[j]@,
            decreases self.stack.len() - i,
        {
            stack.push(self.stack[i].copy());
            i += 1;
        }
        let child = ThreadContext { ip, stack, call_stack: Vec::new() };
        assert(child@.stack =~= self@.stack);
        child
    }

    /// Pushes a copy of the value that lies `depth` places below the top.
    pub fn pick(&mut self, depth: usize)
        requires
            depth < old(self).stack.len(),
        ensures
            final(self)@ == old(self)@.pushed(old(self)@.top(depth as int)),
            final(self).stack.len() == old(self).stack.len() + 1,
    {
        let at = self.stack.len() - 1 - depth;
        let v = self.stack[at].copy();
        self.push(v);
    }

    /// Pushes `value`.
    pub fn push(&mut self, value: Value)
        ensures
            final(self)@ == old(self)@.pushed(value@),
            final(self).stack.len() == old(self).stack.len() + 1,
    {
        self.stack.push(value);
        assert(self@.stack =~= old(self)@.stack.push(value@));
    }

    /// Pops the top of the stack.
    pub fn pop(&mut self) -> (value: Value)
        requires
            old(self).stack.len() > 0,
        ensures
            value@ == old(self)@.top(0),
            final(self)@ == old(self)@.dropped(1),
            final(self).stack.len() == old(self).stack.len() - 1,
    {
        let value = self.stack.pop().unwrap();
        assert(self@.stack =~= old(self)@.stack.take(old(self)@.stack.len() - 1));
        value
    }

    /// Runs the instruction at the instruction pointer.
    pub fn step(&mut self, code: &Code) -> (r: Result<StepResult, RuntimeError>)
        ensures
            exists|clock: Clock| stepped(old(self)@, code@, clock, r, final(self)@),
    {
        let ghost pre = self@;
        let ghost any = Clock { target: None, now: 0 };
        let ip = self.ip;
        if ip >= code.instructions.len() {
            assert(stepped(pre, code@, any, Err(RuntimeError::InstructionOutOfRange), self@));
            return Err(RuntimeError::InstructionOutOfRange);
        }
        let depth = self.stack.len();
        let ghost mut clock = any;
        let r = match code.instructions[ip] {
            Instruction::Constant(k) => {
                if k < code.constants.len() {
                    let v = code.constants[k].copy();
                    self.push(v);
                    self.ip = ip + 1;
                    Ok(StepResult::Continue)
                } else {
                    Err(RuntimeError::ConstantOutOfRange)
                }
            },
            Instruction::Print => {
                if depth < 1 {
                    Err(RuntimeError::StackUnderflow)
                } else {
                    let v = self.pop();
                    self.ip = ip + 1;
                    Ok(StepResult::Print(v.to_text()))
                }
            },
            Instruction::Pick(d) => {
                if d < depth {
                    self.pick(d);
                    self.ip = ip + 1;
                    Ok(StepResult::Continue)
                } else {
                    Err(RuntimeError::StackUnderflow)
                }
            },
            Instruction::Pop => {
                if depth < 1 {
                    Err(RuntimeError::StackUnderflow)
                } else {
                    let _ = self.pop();
                    self.ip = ip + 1;
                    Ok(StepResult::Continue)
                }
            },
            Instruction::Swap => {
                if depth < 2 {
                    Err(RuntimeError::StackUnderflow)
                } else {
                    let a = self.pop();
                    let b = self.pop();
                    self.push(a);
                    self.push(b);
                    self.ip = ip + 1;
                    assert(self@.stack =~= pre.advanced().dropped(2).pushed(pre.top(0)).pushed(
                        pre.top(1),
                    ).stack);
                    Ok(StepResult::Continue)
                }
            },
            Instruction::Spawn(resume) => {
                let child = self.spawn(ip + 1);
                self.ip = resume;
                Ok(StepResult::Spawn(child))
            },
            Instruction::Jump(target) => {
                self.ip = target;
                Ok(StepResult::Continue)
            },
            Instruction::JmpNot(target) => {
                if depth < 1 {
                    Err(RuntimeError::StackUnderflow)
                } else {
                    match &self.stack[depth - 1] {
                        Value::Bool(b) => {
                            let flag = *b;
                            let _ = self.pop();
                            if flag {
                                self.ip = ip + 1;
                            } else {
                                self.ip = target;
                            }
                            Ok(StepResult::Continue)
                        },
                        _ => Err(RuntimeError::TypeError),
                    }
                }
            },
            Instruction::Call => {
                if depth < 1 {
                    Err(RuntimeError::StackUnderflow)
                } else {
                    match &self.stack[depth - 1] {
                        Value::Jump(target) => {
                            let target = *target;
                            let _ = self.pop();
                            self.call_stack.push(ip + 1);
                            self.ip = target;
                            Ok(StepResult::Continue)
                        },
                        _ => Err(RuntimeError::TypeError),
                    }
                }
            },
            Instruction::Return => {
                if self.call_stack.len() < 1 {
                    Err(RuntimeError::ReturnWithoutCall)
                } else {
                    let target = self.call_stack.pop().unwrap();
                    self.ip = target;
                    Ok(StepResult::Continue)
                }
            },
            Instruction::Term => {
                self.ip = ip + 1;
                Ok(StepResult::Break)
            },
            Instruction::Wait => {
                if depth < 1 {
                    Err(RuntimeError::StackUnderflow)
                } else {
                    match &self.stack[depth - 1] {
                        Value::Duration(d) => {
                            let d = *d;
                            let _ = self.pop();
                            self.ip = ip + 1;
                            Ok(StepResult::Wait(d))
                        },
                        _ => Err(RuntimeError::TypeError),
                    }
                }
            },
            Instruction::At => {
                if depth < 1 {
                    Err(RuntimeError::StackUnderflow)
                } else {
                    match &self.stack[depth - 1] {
                        Value::Time(TimeOfDay::HM(h, m)) => {
                            if *h >= 24 || *m >= 60 {
                                Err(RuntimeError::UnknownTime)
                            } else {
                                let reading = Clock::read(*h, *m);
                                proof {
                                    clock = reading;
                                }
                                match reading.wait() {
                                    Ok(d) => {
                                        let _ = self.pop();
                                        self.ip = ip + 1;
                                        Ok(StepResult::Wait(d))
                                    },
                                    Err(e) => Err(e),
                                }
                            }
                        },
                        Value::Time(_) => Err(RuntimeError::UnknownTime),
                        _ => Err(RuntimeError::TypeError),
                    }
                }
            },
            Instruction::Publish => {
                if depth < 2 {
                    Err(RuntimeError::StackUnderflow)
                } else {
                    match self.stack[depth - 1].to_payload() {
                        Err(e) => Err(e),
                        Ok(payload) => match &self.stack[depth - 2] {
                            Value::Path(path) => {
                                let path = path.clone();
                                let _ = self.pop();
                                let _ = self.pop();
                                self.ip = ip + 1;
                                assert(self@.stack =~= pre.dropped(2).stack);
                                Ok(StepResult::Publish(path, payload))
                            },
                            _ => Err(RuntimeError::TypeError),
                        },
                    }
                }
            },
            Instruction::Get => {
                if depth < 1 {
                    Err(RuntimeError::StackUnderflow)
                } else {
                    match &self.stack[depth - 1] {
                        Value::Path(path) => {
                            let path = path.clone();
                            let _ = self.pop();
                            self.ip = ip + 1;
                            Ok(StepResult::Get(path))
                        },
                        _ => Err(RuntimeError::TypeError),
                    }
                }
            },
            Instruction::Stop => {
                self.ip = ip + 1;
                Ok(StepResult::Stop)
            },
            Instruction::SceneContext => {
                self.ip = ip + 1;
                Ok(StepResult::SceneContext)
            },
            Instruction::Equal => {
                if depth < 2 {
                    Err(RuntimeError::StackUnderflow)
                } else {
                    let rhs = self.pop();
                    let lhs = self.pop();
                    self.push(Value::Bool(rhs.equals(&lhs)));
                    self.ip = ip + 1;
                    assert(self@.stack =~= pre.dropped(2).pushed(
                        ValueView::Bool(value_equal(pre.top(0), pre.top(1))),
                    ).stack);
                    Ok(StepResult::Continue)
                }
            },
            Instruction::Index => {
                if depth < 2 {
                    Err(RuntimeError::StackUnderflow)
                } else {
                    match (&self.stack[depth - 1], &self.stack[depth - 2]) {
                        (Value::Str(key), Value::Object(props)) => {
                            proof {
                                object_view(*props);
                            }
                            match find_property(props, key.as_str()) {
                                Some(at) => {
                                    let v = props[at].1.copy();
                                    let _ = self.pop();
                                    let _ = self.pop();
                                    self.push(v);
                                    self.ip = ip + 1;
                                    assert(self@.stack =~= pre.dropped(2).pushed(v@).stack);
                                    Ok(StepResult::Continue)
                                },
                                None => Err(RuntimeError::MissingProperty),
                            }
                        },
                        _ => Err(RuntimeError::TypeError),
                    }
                }
            },
        };
        assert(stepped(pre, code@, clock, r, self@));
        r
    }

    /// Takes the payload that the topic of the last `Get` received.
    pub fn receive(&mut self, payload: &[u8]) -> (r: Result<(), RuntimeError>)
        ensures
            match receive_spec(old(self)@, payload@) {
                Ok(next) => r is Ok && final(self)@ == next,
                Err(e) => r matches Err(f) && f == e && final(self)@ == old(self)@,
            },
    {
        match Value::from_payload(payload) {
            Ok(v) => {
                self.push(v);
                Ok(())
            },
            Err(e) => Err(e),
        }
    }
}

} // verus!
