//! The workers of a pool: what a worker logs, when it signals a
//! completion and when it leaves, decided step by step. The thread that
//! runs a worker receives, works and sends as these decisions say.

use crate::text::{decimal, to_decimal};
use vstd::prelude::*;

verus! {

/// The three pools of a run.
#[derive(Debug, Clone, Copy, PartialEq, Eq, Structural)]
pub enum PoolKind {
    Convert,
    PdfCombine,
    RtfCombine,
}

/// Where a worker stands.
#[derive(Debug, Clone, PartialEq, Eq)]
pub enum WorkerState {
    /// Not launched yet.
    Created,
    /// Waiting for a task.
    Idle,
    /// At work on the task of this name.
    Working(String),
    /// Gone.
    Exited,
}

/// The mathematical value of a [`WorkerState`].
pub enum WorkerStateView {
    Created,
    Idle,
    Working(Seq<char>),
    Exited,
}

impl View for WorkerState {
    type V = WorkerStateView;

    open spec fn view(&self) -> WorkerStateView {
        match self {
            WorkerState::Created => WorkerStateView::Created,
            WorkerState::Idle => WorkerStateView::Idle,
            WorkerState::Working(name) => WorkerStateView::Working(name@),
            WorkerState::Exited => WorkerStateView::Exited,
        }
    }
}

/// What happened to a worker.
#[derive(Debug)]
pub enum WorkerEvent {
    /// Its thread has started.
    Launched,
    /// It received the task of this name.
    Received(String),
    /// Its task ended well.
    Succeeded,
    /// Its task failed, for this reason.
    Failed(String),
    /// The channel of tasks is closed.
    Closed,
    /// The run was cancelled.
    Cancelled,
}

/// What a worker does next.
#[derive(Debug, Clone, Copy, PartialEq, Eq, Structural)]
pub enum WorkerNext {
    /// Wait for a task.
    Receive,
    /// Carry out the task just received.
    Execute,
    /// Leave the loop.
    Exit,
    /// The event was not awaited; go on as before.
    Nothing,
}

/// What a step asks of the thread.
#[derive(Debug)]
pub struct WorkerAction {
    /// The line to log, if any.
    pub log: Option<String>,
    /// Whether to send a completion pulse.
    pub pulse: bool,
    pub next: WorkerNext,
}

/// How a pool calls its workers.
pub open spec fn worker_label(kind: PoolKind) -> Seq<char> {
    match kind {
        PoolKind::Convert => "Convert worker "@,
        PoolKind::PdfCombine => "PDF combine worker "@,
        PoolKind::RtfCombine => "RTF combine worker "@,
    }
}

/// How a pool calls its work.
pub open spec fn work_label(kind: PoolKind) -> Seq<char> {
    match kind {
        PoolKind::Convert => " convert"@,
        PoolKind::PdfCombine => " pdf combine"@,
        PoolKind::RtfCombine => " rtf combine"@,
    }
}

/// How a pool says that a task ended well.
pub open spec fn done_label(kind: PoolKind) -> Seq<char> {
    match kind {
        PoolKind::Convert => " complete\n"@,
        PoolKind::PdfCombine => " successfully\n"@,
        PoolKind::RtfCombine => " complete\n"@,
    }
}

/// The line that a worker logs when it starts.
pub open spec fn launch_line(kind: PoolKind, id: nat) -> Seq<char> {
    "[INFO] "@ + worker_label(kind) + decimal(id) + " launch\n"@
}

/// The line that a worker logs when it leaves.
pub open spec fn exit_line(kind: PoolKind, id: nat) -> Seq<char> {
    "[INFO] "@ + worker_label(kind) + decimal(id) + " exit\n"@
}

/// The line that a worker logs when it takes up a task.
pub open spec fn start_line(kind: PoolKind, name: Seq<char>) -> Seq<char> {
    "[INFO] "@ + name + work_label(kind) + " start\n"@
}

/// The line that a worker logs when its task ended well.
pub open spec fn complete_line(kind: PoolKind, name: Seq<char>) -> Seq<char> {
    "[INFO] "@ + name + work_label(kind) + done_label(kind)
}

/// The line that a worker logs when its task failed.
pub open spec fn error_line(kind: PoolKind, name: Seq<char>, reason: Seq<char>) -> Seq<char> {
    "[ERROR] "@ + name + work_label(kind) + " failed, because: "@ + reason + "\n"@
}

/// How a pool calls its workers.
fn worker_text(kind: PoolKind) -> (r: &'static str)
    ensures
        r@ == worker_label(kind),
{
    match kind {
        PoolKind::Convert => "Convert worker ",
        PoolKind::PdfCombine => "PDF combine worker ",
        PoolKind::RtfCombine => "RTF combine worker ",
    }
}

/// How a pool calls its work.
fn work_text(kind: PoolKind) -> (r: &'static str)
    ensures
        r@ == work_label(kind),
{
    match kind {
        PoolKind::Convert => " convert",
        PoolKind::PdfCombine => " pdf combine",
        PoolKind::RtfCombine => " rtf combine",
    }
}

/// How a pool says that a task ended well.
fn done_text(kind: PoolKind) -> (r: &'static str)
    ensures
        r@ == done_label(kind),
{
    match kind {
        PoolKind::Convert => " complete\n",
        PoolKind::PdfCombine => " successfully\n",
        PoolKind::RtfCombine => " complete\n",
    }
}

/// The texts one after the other.
fn join4(a: &str, b: &str, c: &str, d: &str) -> (r: String)
    ensures
        r@ == a@ + b@ + c@ + d@,
{
    let mut r = String::from_str(a);
    r.append(b);
    r.append(c);
    r.append(d);
    r
}

/// The number of workers that a pool starts: one per task, but no more
/// than the limit.
pub fn pool_size(tasks: usize, limit: usize) -> (r: usize)
    ensures
        r == (if tasks > limit {
            limit
        } else {
            tasks
        }),
{
    if tasks > limit {
        limit
    } else {
        tasks
    }
}

/// A worker of a pool.
#[derive(Debug)]
pub struct Worker {
    id: usize,
    kind: PoolKind,
    state: WorkerState,
}

impl Worker {
    /// The number of the worker in its pool.
    pub closed spec fn id(&self) -> nat {
        self.id as nat
    }

    /// The pool of the worker.
    pub closed spec fn kind(&self) -> PoolKind {
        self.kind
    }

    /// Where the worker stands.
    pub closed spec fn state(&self) -> WorkerStateView {
        self.state@
    }

    /// Worker number `id` of a pool, not launched yet.
    pub fn new(id: usize, kind: PoolKind) -> (r: Self)
        ensures
            r.id() == id,
            r.kind() == kind,
            r.state() == WorkerStateView::Created,
    {
        Worker { id, kind, state: WorkerState::Created }
    }

    /// Whether the worker has left.
    pub fn has_exited(&self) -> (r: bool)
        ensures
            r == (self.state() == WorkerStateView::Exited),
    {
        match self.state {
            WorkerState::Exited => true,
            _ => false,
        }
    }

    /// Takes the worker one step on. A worker logs its launch and waits; it
    /// logs the start of each task it receives and carries it out; when
    /// the task ends well it sends one pulse and logs that; when the task
    /// fails it logs the reason, sends nothing and goes on; when the
    /// channel is closed or the run is cancelled while it waits, it logs
    /// its exit and leaves. An event that the state does not await changes
    /// nothing.
    pub fn step(&mut self, event: WorkerEvent) -> (action: WorkerAction)
        ensures
            final(self).id() == old(self).id(),
            final(self).kind() == old(self).kind(),
            match (old(self).state(), event) {
                (WorkerStateView::Created, WorkerEvent::Launched) => {
                    &&& final(self).state() == WorkerStateView::Idle
                    &&& action.log matches Some(line)
                    &&& line@ == launch_line(old(self).kind(), old(self).id())
                    &&& !action.pulse
                    &&& action.next == WorkerNext::Receive
                },
                (WorkerStateView::Idle, WorkerEvent::Received(name)) => {
                    &&& final(self).state() == WorkerStateView::Working(name@)
                    &&& action.log matches Some(line)
                    &&& line@ == start_line(old(self).kind(), name@)
                    &&& !action.pulse
                    &&& action.next == WorkerNext::Execute
                },
                (WorkerStateView::Working(name), WorkerEvent::Succeeded) => {
                    &&& final(self).state() == WorkerStateView::Idle
                    &&& action.log matches Some(line)
                    &&& line@ == complete_line(old(self).kind(), name)
                    &&& action.pulse
                    &&& action.next == WorkerNext::Receive
                },
                (WorkerStateView::Working(name), WorkerEvent::Failed(reason)) => {
                    &&& final(self).state() == WorkerStateView::Idle
                    &&& action.log matches Some(line)
                    &&& line@ == error_line(old(self).kind(), name, reason@)
                    &&& !action.pulse
                    &&& action.next == WorkerNext::Receive
                },
                (WorkerStateView::Idle, WorkerEvent::Closed)
                | (WorkerStateView::Idle, WorkerEvent::Cancelled) => {
                    &&& final(self).state() == WorkerStateView::Exited
                    &&& action.log matches Some(line)
                    &&& line@ == exit_line(old(self).kind(), old(self).id())
                    &&& !action.pulse
                    &&& action.next == WorkerNext::Exit
                },
                _ => {
                    &&& final(self).state() == old(self).state()
                    &&& action.log is None
                    &&& !action.pulse
                    &&& action.next == WorkerNext::Nothing
                },
            },
    {
        let nothing = WorkerAction { log: None, pulse: false, next: WorkerNext::Nothing };
        match event {
            WorkerEvent::Launched => {
                match &self.state {
                    WorkerState::Created => {
                        let number = to_decimal(self.id);
                        let line = join4(
                            "[INFO] ",
                            worker_text(self.kind),
                            number.as_str(),
                            " launch\n",
                        );
                        self.state = WorkerState::Idle;
                        WorkerAction { log: Some(line), pulse: false, next: WorkerNext::Receive }
                    },
                    _ => nothing,
                }
            },
            WorkerEvent::Received(name) => {
                match &self.state {
                    WorkerState::Idle => {
                        let line = join4(
                            "[INFO] ",
                            name.as_str(),
                            work_text(self.kind),
                            " start\n",
                        );
                        self.state = WorkerState::Working(name);
                        WorkerAction { log: Some(line), pulse: false, next: WorkerNext::Execute }
                    },
                    _ => nothing,
                }
            },
            WorkerEvent::Succeeded => {
                match &self.state {
                    WorkerState::Working(name) => {
                        let line = join4(
                            "[INFO] ",
                            name.as_str(),
                            work_text(self.kind),
                            done_text(self.kind),
                        );
                        self.state = WorkerState::Idle;
                        WorkerAction { log: Some(line), pulse: true, next: WorkerNext::Receive }
                    },
                    _ => nothing,
                }
            },
            WorkerEvent::Failed(reason) => {
                match &self.state {
                    WorkerState::Working(name) => {
                        let mut line = join4(
                            "[ERROR] ",
                            name.as_str(),
                            work_text(self.kind),
                            " failed, because: ",
                        );
                        line.append(reason.as_str());
                        line.append("\n");
                        self.state = WorkerState::Idle;
                        WorkerAction { log: Some(line), pulse: false, next: WorkerNext::Receive }
                    },
                    _ => nothing,
                }
            },
            WorkerEvent::Closed | WorkerEvent::Cancelled => {
                match &self.state {
                    WorkerState::Idle => {
                        let number = to_decimal(self.id);
                        let line = join4(
                            "[INFO] ",
                            worker_text(self.kind),
                            number.as_str(),
                            " exit\n",
                        );
                        self.state = WorkerState::Exited;
                        WorkerAction { log: Some(line), pulse: false, next: WorkerNext::Exit }
                    },
                    _ => nothing,
                }
            },
        }
    }
}

} // verus!
