//! The tasks of one running script and the groups in which they are
//! cancelled.
//!
//! The machine decides; its host acts. `advance` runs one instruction of one
//! task. Where the instruction needs the outside world, the machine hands the
//! host a request and the task waits until the host reports back with
//! `completed` or `delivered`.

use crate::clock::Clock;
use crate::compiler::{Code, CodeView};
use crate::error::RuntimeError;
use crate::value::Duration;
use crate::vm::{receive_spec, step_spec, stepped, ContextView, Effect, StepResult, ThreadContext};
use vstd::prelude::*;

verus! {

/// Where a task stands.
#[derive(Clone, Copy, Debug, PartialEq, Eq, Structural)]
pub enum TaskState {
    /// The task can run its next instruction.
    Ready,
    /// The task waits for the host to finish what it asked for.
    Waiting,
    /// The task waits for the host to deliver a payload.
    Receiving,
    /// The task has ended or was cancelled.
    Done,
}

/// The mathematical content of a [`Task`].
pub struct TaskView {
    pub group: u64,
    pub state: TaskState,
    pub ctx: ContextView,
}

/// One task: what it owns, the group in which it is cancelled, and where it
/// stands.
#[derive(Debug)]
pub struct Task {
    pub group: u64,
    pub state: TaskState,
    pub ctx: ThreadContext,
}

impl View for Task {
    type V = TaskView;

    open spec fn view(&self) -> TaskView {
        TaskView { group: self.group, state: self.state, ctx: self.ctx@ }
    }
}

/// The mathematical content of a [`Request`].
pub enum RequestView {
    Print(Seq<char>),
    /// Wait for this many nanoseconds.
    Wait(nat),
    Get(Seq<char>),
    Publish(Seq<char>, Seq<u8>),
}

/// What a task asks of the host. The host answers `Get` with `delivered` and
/// the others with `completed`.
#[derive(Debug, PartialEq)]
pub enum Request {
    /// Print the text as one line.
    Print(String),
    /// Let the span of time pass.
    Wait(Duration),
    /// Fetch the next payload of the topic.
    Get(String),
    /// Send the payload to the topic.
    Publish(String, Vec<u8>),
}

impl View for Request {
    type V = RequestView;

    open spec fn view(&self) -> RequestView {
        match self {
            Request::Print(text) => RequestView::Print(text@),
            Request::Wait(d) => RequestView::Wait(d.as_nanos()),
            Request::Get(path) => RequestView::Get(path@),
            Request::Publish(path, payload) => RequestView::Publish(path@, payload@),
        }
    }
}

/// The mathematical content of a [`Machine`].
pub struct MachineView {
    pub code: CodeView,
    /// The tasks in the order in which they were started.
    pub tasks: Seq<TaskView>,
    /// The number that the next new group gets.
    pub next_group: u64,
}

/// The contents of a list of tasks.
pub open spec fn tasks_view(tasks: Seq<Task>) -> Seq<TaskView> {
    Seq::new(tasks.len(), |i: int| tasks[i]@)
}

/// The request that an effect of a step is, if the host has to act on it.
pub open spec fn request_of(effect: Effect) -> Option<RequestView> {
    match effect {
        Effect::Print(text) => Some(RequestView::Print(text)),
        Effect::Wait(nanos) => Some(RequestView::Wait(nanos)),
        Effect::Get(path) => Some(RequestView::Get(path)),
        Effect::Publish(path, payload) => Some(RequestView::Publish(path, payload)),
        _ => None,
    }
}

impl MachineView {
    /// Whether every task is in a group that has been handed out.
    pub open spec fn well_formed(self) -> bool {
        forall|i: int| 0 <= i < self.tasks.len() ==> (#[trigger] self.tasks[i]).group
            < self.next_group
    }

    /// Whether the task `t` exists and can run.
    pub open spec fn is_ready(self, t: int) -> bool {
        0 <= t < self.tasks.len() && self.tasks[t].state == TaskState::Ready
    }

    /// Whether no task is left that runs or waits.
    pub open spec fn is_finished(self) -> bool {
        forall|i: int| 0 <= i < self.tasks.len() ==> (#[trigger] self.tasks[i]).state
            == TaskState::Done
    }

    /// The machine after every task has been ended.
    pub open spec fn shut(self) -> MachineView {
        MachineView {
            tasks: Seq::new(
                self.tasks.len(),
                |i: int| TaskView { state: TaskState::Done, ..self.tasks[i] },
            ),
            ..self
        }
    }

    /// The machine after what task `t` asked of the host has failed: every
    /// task is ended, whichever `t` is.
    pub open spec fn failed(self, t: int) -> MachineView {
        self.shut()
    }

    /// The machine after the task `t` has become `task`.
    pub open spec fn with_task(self, t: int, task: TaskView) -> MachineView {
        MachineView { tasks: self.tasks.update(t, task), ..self }
    }

    /// The machine after every task of the group `group` has been cancelled.
    pub open spec fn cancelled(self, group: u64) -> MachineView {
        MachineView {
            tasks: Seq::new(
                self.tasks.len(),
                |i: int|
                    if self.tasks[i].group == group {
                        TaskView { state: TaskState::Done, ..self.tasks[i] }
                    } else {
                        self.tasks[i]
                    },
            ),
            ..self
        }
    }

    /// What one instruction of the task `t` makes of the machine, and what it
    /// asks of the host. A task that is not ready runs nothing. A task that
    /// cannot go on ends the whole machine.
    pub open spec fn advance(self, t: int, clock: Clock) -> (
        Result<Option<RequestView>, RuntimeError>,
        MachineView,
    ) {
        if !self.is_ready(t) {
            (Ok(None), self)
        } else {
            let task = self.tasks[t];
            match step_spec(task.ctx, self.code, clock) {
                Err(e) => (Err(e), self.shut()),
                Ok((effect, next)) => {
                    let moved = TaskView { ctx: next, ..task };
                    match effect {
                        Effect::Continue => (Ok(None), self.with_task(t, moved)),
                        Effect::Break => (
                            Ok(None),
                            self.with_task(t, TaskView { state: TaskState::Done, ..moved }),
                        ),
                        Effect::SceneContext => if self.next_group == u64::MAX {
                            (Err(RuntimeError::Exhausted), self.with_task(t, moved).shut())
                        } else {
                            (
                                Ok(None),
                                MachineView {
                                    next_group: (self.next_group + 1) as u64,
                                    ..self.with_task(
                                        t,
                                        TaskView { group: self.next_group, ..moved },
                                    )
                                },
                            )
                        },
                        Effect::Spawn(child) => (
                            Ok(None),
                            MachineView {
                                tasks: self.tasks.update(t, moved).push(
                                    TaskView {
                                        group: task.group,
                                        state: TaskState::Ready,
                                        ctx: child,
                                    },
                                ),
                                ..self
                            },
                        ),
                        Effect::Stop => (Ok(None), self.with_task(t, moved).cancelled(task.group)),
                        Effect::Get(_) => (
                            Ok(request_of(effect)),
                            self.with_task(t, TaskView { state: TaskState::Receiving, ..moved }),
                        ),
                        _ => (
                            Ok(request_of(effect)),
                            self.with_task(t, TaskView { state: TaskState::Waiting, ..moved }),
                        ),
                    }
                },
            }
        }
    }

    /// The machine after the host has finished what the task `t` asked for.
    pub open spec fn complete(self, t: int) -> MachineView {
        if 0 <= t < self.tasks.len() && self.tasks[t].state == TaskState::Waiting {
            self.with_task(t, TaskView { state: TaskState::Ready, ..self.tasks[t] })
        } else {
            self
        }
    }

    /// What the payload that the host delivers to the task `t` makes of the
    /// machine.
    pub open spec fn deliver(self, t: int, payload: Seq<u8>) -> (
        Result<(), RuntimeError>,
        MachineView,
    ) {
        if 0 <= t < self.tasks.len() && self.tasks[t].state == TaskState::Receiving {
            match receive_spec(self.tasks[t].ctx, payload) {
                Ok(next) => (
                    Ok(()),
                    self.with_task(
                        t,
                        TaskView { state: TaskState::Ready, ctx: next, ..self.tasks[t] },
                    ),
                ),
                Err(e) => (Err(e), self.shut()),
            }
        } else {
            (Ok(()), self)
        }
    }
}

/// The tasks of one running script.
pub struct Machine {
    code: Code,
    tasks: Vec<Task>,
    next_group: u64,
}

impl View for Machine {
    type V = MachineView;

    closed spec fn view(&self) -> MachineView {
        MachineView {
            code: self.code@,
            tasks: tasks_view(self.tasks@),
            next_group: self.next_group,
        }
    }
}

impl Machine {
    /// A machine with one task, at the first instruction of `code`, in a group
    /// of its own.
    pub fn new(code: Code) -> (m: Machine)
        ensures
            m@.well_formed(),
            m@.code == code@,
            m@.next_group == 1,
            m@.tasks == seq![
                TaskView {
                    group: 0,
                    state: TaskState::Ready,
                    ctx: ContextView { ip: 0, stack: Seq::empty(), call_stack: Seq::empty() },
                },
            ],
    {
        let mut tasks: Vec<Task> = Vec::new();
        tasks.push(Task { group: 0, state: TaskState::Ready, ctx: ThreadContext::new(0) });
        let m = Machine { code, tasks, next_group: 1 };
        assert(m@.tasks =~= seq![
            TaskView {
                group: 0,
                state: TaskState::Ready,
                ctx: ContextView { ip: 0, stack: Seq::empty(), call_stack: Seq::empty() },
            },
        ]);
        m
    }

    /// How many tasks the machine has had.
    pub fn task_count(&self) -> (n: usize)
        ensures
            n == self@.tasks.len(),
    {
        self.tasks.len()
    }

    /// Where the task `t` stands, if there is such a task.
    pub fn state(&self, t: usize) -> (r: Option<TaskState>)
        ensures
            r == if t < self@.tasks.len() {
                Some(self@.tasks[t as int].state)
            } else {
                None
            },
    {
        if t < self.tasks.len() {
            Some(self.tasks[t].state)
        } else {
            None
        }
    }

    /// The group of the task `t`, if there is such a task.
    pub fn group(&self, t: usize) -> (r: Option<u64>)
        ensures
            r == if t < self@.tasks.len() {
                Some(self@.tasks[t as int].group)
            } else {
                None
            },
    {
        if t < self.tasks.len() {
            Some(self.tasks[t].group)
        } else {
            None
        }
    }

    /// The first task that can run.
    pub fn ready(&self) -> (r: Option<usize>)
        ensures
            r matches Some(t) ==> self@.is_ready(t as int) && forall|i: int|
                0 <= i < t ==> !self@.is_ready(i),
            r is None ==> forall|i: int| !self@.is_ready(i),
    {
        let mut i: usize = 0;
        while i < self.tasks.len()
            invariant
                i <= self.tasks.len(),
                forall|j: int| 0 <= j < i ==> !self@.is_ready(j),
            decreases self.tasks.len() - i,
        {
            if matches!(self.tasks[i].state, TaskState::Ready) {
                return Some(i);
            }
            i += 1;
        }
        None
    }

    /// Whether no task is left that runs or waits.
    pub fn finished(&self) -> (r: bool)
        ensures
            r == self@.is_finished(),
    {
        let mut i: usize = 0;
        while i < self.tasks.len()
            invariant
                i <= self.tasks.len(),
                forall|j: int| 0 <= j < i ==> (#[trigger] self@.tasks[j]).state == TaskState::Done,
            decreases self.tasks.len() - i,
        {
            if !matches!(self.tasks[i].state, TaskState::Done) {
                assert(self@.tasks[i as int].state != TaskState::Done);
                return false;
            }
            i += 1;
        }
        true
    }

    /// Takes the failure of what task `t` asked of the host: an error of one
    /// task ends the machine as a whole, whichever task it was.
    pub fn failed(&mut self, t: usize)
        ensures
            final(self)@ == old(self)@.failed(t as int),
            final(self)@.is_finished(),
    {
        self.shutdown()
    }

    /// Ends every task, as the host asks when it is told to stop.
    pub fn shutdown(&mut self)
        ensures
            final(self)@ == old(self)@.shut(),
            final(self)@.is_finished(),
    {
        let mut i: usize = 0;
        while i < self.tasks.len()
            invariant
                i <= self.tasks.len(),
                self.tasks.len() == old(self).tasks.len(),
                self.code == old(self).code,
                self.next_group == old(self).next_group,
                forall|j: int|
                    0 <= j < self.tasks.len() ==> (#[trigger] self.tasks@[j]).group
                        == old(self).tasks@[j].group && self.tasks@[j].ctx == old(
                        self,
                    ).tasks@[j].ctx,
                forall|j: int| 0 <= j < i ==> (#[trigger] self.tasks@[j]).state == TaskState::Done,
                forall|j: int|
                    i <= j < self.tasks.len() ==> (#[trigger] self.tasks@[j]).state == old(
                        self,
                    ).tasks@[j].state,
            decreases self.tasks.len() - i,
        {
            self.tasks[i].state = TaskState::Done;
            i += 1;
        }
        assert(self@.tasks =~= old(self)@.shut().tasks);
    }

    /// Cancels every task of the group `group`.
    fn cancel(&mut self, group: u64)
        ensures
            final(self)@ == old(self)@.cancelled(group),
    {
        let mut i: usize = 0;
        while i < self.tasks.len()
            invariant
                i <= self.tasks.len(),
                self.tasks.len() == old(self).tasks.len(),
                self.code == old(self).code,
                self.next_group == old(self).next_group,
                forall|j: int|
                    0 <= j < self.tasks.len() ==> (#[trigger] self.tasks@[j]).group
                        == old(self).tasks@[j].group && self.tasks@[j].ctx == old(
                        self,
                    ).tasks@[j].ctx,
                forall|j: int|
                    0 <= j < i ==> (#[trigger] self.tasks@[j]).state == (if old(
                        self,
                    ).tasks@[j].group == group {
                        TaskState::Done
                    } else {
                        old(self).tasks@[j].state
                    }),
                forall|j: int|
                    i <= j < self.tasks.len() ==> (#[trigger] self.tasks@[j]).state == old(
                        self,
                    ).tasks@[j].state,
            decreases self.tasks.len() - i,
        {
            if self.tasks[i].group == group {
                self.tasks[i].state = TaskState::Done;
            }
            i += 1;
        }
        assert(self@.tasks =~= old(self)@.cancelled(group).tasks);
    }

    /// Runs one instruction of the task `t`. The result is what the task asks
    /// of the host, if it asks anything.
    pub fn advance(&mut self, t: usize) -> (r: Result<Option<Request>, RuntimeError>)
        ensures
            exists|clock: Clock|
                {
                    let (like, next) = #[trigger] old(self)@.advance(t as int, clock);
                    &&& final(self)@ == next
                    &&& match like {
                        Ok(Some(request)) => r matches Ok(Some(q)) && q@ == request,
                        Ok(None) => r matches Ok(None),
                        Err(e) => r matches Err(f) && f == e,
                    }
                },
    {
        let ghost pre = self@;
        let ghost any = Clock { target: None, now: 0 };
        if t >= self.tasks.len() || !matches!(self.tasks[t].state, TaskState::Ready) {
            assert(pre.advance(t as int, any).1 == pre);
            return Ok(None);
        }
        let group = self.tasks[t].group;
        let outcome = self.tasks[t].ctx.step(&self.code);
        let ghost clock = choose|clock: Clock|
            stepped(pre.tasks[t as int].ctx, pre.code, clock, outcome, self.tasks@[t as int].ctx@);
        let ghost moved = TaskView { ctx: self.tasks@[t as int].ctx@, ..pre.tasks[t as int] };
        assert(self@.tasks =~= pre.tasks.update(t as int, moved));
        match outcome {
            Err(e) => {
                self.shutdown();
                assert(self@.tasks =~= pre.shut().tasks);
                assert(pre.advance(t as int, clock).1 == self@);
                Err(e)
            },
            Ok(StepResult::Continue) => {
                assert(pre.advance(t as int, clock).1 == self@);
                Ok(None)
            },
            Ok(StepResult::Break) => {
                self.tasks[t].state = TaskState::Done;
                assert(self@.tasks =~= pre.advance(t as int, clock).1.tasks);
                assert(pre.advance(t as int, clock).1 == self@);
                Ok(None)
            },
            Ok(StepResult::SceneContext) => {
                if self.next_group == u64::MAX {
                    self.shutdown();
                    assert(self@.tasks =~= pre.with_task(t as int, moved).shut().tasks);
                    assert(pre.advance(t as int, clock).1 == self@);
                    Err(RuntimeError::Exhausted)
                } else {
                    self.tasks[t].group = self.next_group;
                    self.next_group = self.next_group + 1;
                    assert(self@.tasks =~= pre.advance(t as int, clock).1.tasks);
                    assert(pre.advance(t as int, clock).1 == self@);
                    Ok(None)
                }
            },
            Ok(StepResult::Spawn(child)) => {
                self.tasks.push(Task { group, state: TaskState::Ready, ctx: child });
                assert(self@.tasks =~= pre.advance(t as int, clock).1.tasks);
                assert(pre.advance(t as int, clock).1 == self@);
                Ok(None)
            },
            Ok(StepResult::Stop) => {
                self.cancel(group);
                assert(self@.tasks =~= pre.advance(t as int, clock).1.tasks);
                assert(pre.advance(t as int, clock).1 == self@);
                Ok(None)
            },
            Ok(StepResult::Print(text)) => {
                self.tasks[t].state = TaskState::Waiting;
                assert(self@.tasks =~= pre.advance(t as int, clock).1.tasks);
                assert(pre.advance(t as int, clock).1 == self@);
                Ok(Some(Request::Print(text)))
            },
            Ok(StepResult::Wait(d)) => {
                self.tasks[t].state = TaskState::Waiting;
                assert(self@.tasks =~= pre.advance(t as int, clock).1.tasks);
                assert(pre.advance(t as int, clock).1 == self@);
                Ok(Some(Request::Wait(d)))
            },
            Ok(StepResult::Publish(path, payload)) => {
                self.tasks[t].state = TaskState::Waiting;
                assert(self@.tasks =~= pre.advance(t as int, clock).1.tasks);
                assert(pre.advance(t as int, clock).1 == self@);
                Ok(Some(Request::Publish(path, payload)))
            },
            Ok(StepResult::Get(path)) => {
                self.tasks[t].state = TaskState::Receiving;
                assert(self@.tasks =~= pre.advance(t as int, clock).1.tasks);
                assert(pre.advance(t as int, clock).1 == self@);
                Ok(Some(Request::Get(path)))
            },
        }
    }

    /// Takes note that the host has finished what the task `t` asked for. A
    /// task that does not wait is left as it is.
    pub fn completed(&mut self, t: usize)
        ensures
            final(self)@ == old(self)@.complete(t as int),
    {
        if t < self.tasks.len() && matches!(self.tasks[t].state, TaskState::Waiting) {
            self.tasks[t].state = TaskState::Ready;
            assert(self@.tasks =~= old(self)@.complete(t as int).tasks);
        }
    }

    /// Hands the task `t` the payload that the host fetched for it. A task
    /// that does not wait for one is left as it is.
    pub fn delivered(&mut self, t: usize, payload: &[u8]) -> (r: Result<(), RuntimeError>)
        ensures
            final(self)@ == old(self)@.deliver(t as int, payload@).1,
            match old(self)@.deliver(t as int, payload@).0 {
                Ok(_) => r is Ok,
                Err(e) => r matches Err(f) && f == e,
            },
    {
        if t < self.tasks.len() && matches!(self.tasks[t].state, TaskState::Receiving) {
            match self.tasks[t].ctx.receive(payload) {
                Ok(()) => {
                    self.tasks[t].state = TaskState::Ready;
                    assert(self@.tasks =~= old(self)@.deliver(t as int, payload@).1.tasks);
                    Ok(())
                },
                Err(e) => {
                    self.shutdown();
                    assert(self@.tasks =~= old(self)@.shut().tasks);
                    Err(e)
                },
            }
        } else {
            Ok(())
        }
    }
}

/// Whatever the machine does, every task stays in a group that has been
/// handed out.
pub proof fn groups_stay_handed_out(m: MachineView, t: int, clock: Clock, payload: Seq<u8>)
    requires
        m.well_formed(),
    ensures
        m.advance(t, clock).1.well_formed(),
        m.complete(t).well_formed(),
        m.deliver(t, payload).1.well_formed(),
        m.shut().well_formed(),
{
    let next = m.advance(t, clock).1;
    assert forall|i: int| 0 <= i < next.tasks.len() implies (#[trigger] next.tasks[i]).group
        < next.next_group by {
        if i < m.tasks.len() {
            assert(m.tasks[i].group < m.next_group);
        } else {
            assert(m.tasks[t].group < m.next_group);
        }
    }
    let next = m.deliver(t, payload).1;
    assert forall|i: int| 0 <= i < next.tasks.len() implies (#[trigger] next.tasks[i]).group
        < next.next_group by {
        assert(m.tasks[i].group < m.next_group);
    }
    let next = m.complete(t);
    assert forall|i: int| 0 <= i < next.tasks.len() implies (#[trigger] next.tasks[i]).group
        < next.next_group by {
        assert(m.tasks[i].group < m.next_group);
    }
    let next = m.shut();
    assert forall|i: int| 0 <= i < next.tasks.len() implies (#[trigger] next.tasks[i]).group
        < next.next_group by {
        assert(m.tasks[i].group < m.next_group);
    }
}

/// A task that enters a scene is alone in its group: no other task is in the
/// group that it gets.
pub proof fn scene_group_is_new(m: MachineView, t: int, clock: Clock)
    requires
        m.well_formed(),
        m.is_ready(t),
        step_spec(m.tasks[t].ctx, m.code, clock) matches Ok((Effect::SceneContext, _)),
        m.advance(t, clock).0 is Ok,
    ensures
        forall|i: int|
            0 <= i < m.tasks.len() && i != t ==> (#[trigger] m.advance(t, clock).1.tasks[i]).group
                != m.advance(t, clock).1.tasks[t].group,
{
    let next = m.advance(t, clock).1;
    assert forall|i: int| 0 <= i < m.tasks.len() && i != t implies (#[trigger] next.tasks[i]).group
        != next.tasks[t].group by {
        assert(m.tasks[i].group < m.next_group);
    }
}

/// A task that is started is in the group of the task that starts it.
pub proof fn spawn_joins_group(m: MachineView, t: int, clock: Clock)
    requires
        m.is_ready(t),
        step_spec(m.tasks[t].ctx, m.code, clock) matches Ok((Effect::Spawn(_), _)),
    ensures
        m.advance(t, clock).1.tasks.len() == m.tasks.len() + 1,
        m.advance(t, clock).1.tasks.last().group == m.tasks[t].group,
        m.advance(t, clock).1.tasks.last().state == TaskState::Ready,
{
}

/// A stop cancels the tasks of the group of the task that runs it, and no
/// others: every task of that group is done afterwards, and every task of
/// another group is what it was.
pub proof fn stop_cancels_only_its_group(m: MachineView, t: int, clock: Clock)
    requires
        m.is_ready(t),
        step_spec(m.tasks[t].ctx, m.code, clock) matches Ok((Effect::Stop, _)),
    ensures
        m.advance(t, clock).1.tasks.len() == m.tasks.len(),
        forall|i: int|
            0 <= i < m.tasks.len() && m.tasks[i].group == m.tasks[t].group ==> (#[trigger] m.advance(
                t,
                clock,
            ).1.tasks[i]).state == TaskState::Done,
        forall|i: int|
            0 <= i < m.tasks.len() && m.tasks[i].group != m.tasks[t].group ==> #[trigger] m.advance(
                t,
                clock,
            ).1.tasks[i] == m.tasks[i],
{
}

/// No instruction but a stop, and no report of the host, touches a task other
/// than the one that runs, unless the machine ends as a whole.
pub proof fn others_keep_running(m: MachineView, t: int, clock: Clock)
    requires
        m.is_ready(t),
        m.advance(t, clock).0 is Ok,
        !(step_spec(m.tasks[t].ctx, m.code, clock) matches Ok((Effect::Stop, _))),
    ensures
        forall|i: int|
            0 <= i < m.tasks.len() && i != t ==> #[trigger] m.advance(t, clock).1.tasks[i]
                == m.tasks[i],
{
}

/// After a shutdown every task is done, no task can run, and nothing that
/// the host reports afterwards brings a task back: the machine stays
/// finished.
pub proof fn shutdown_ends_every_task(m: MachineView, t: int, clock: Clock, payload: Seq<u8>)
    ensures
        m.shut().is_finished(),
        forall|i: int| !m.shut().is_ready(i),
        m.shut().advance(t, clock) == (
            Ok::<Option<RequestView>, RuntimeError>(None),
            m.shut(),
        ),
        m.shut().complete(t) == m.shut(),
        m.shut().deliver(t, payload) == (Ok::<(), RuntimeError>(()), m.shut()),
{
}

} // verus!
