//! The log of the processes that a build has run.
//!
//! The logger hears of each process twice: when it is created, and when it
//! exits. What the system says of the process at those two moments is read
//! by the program around this crate and handed over as plain values.

use crate::debugger::{DebugEvent, DebugEventInfo, DebugEventResponse, ExceptionContinuation};
use crate::process::EnvironmentBlock;
use vstd::prelude::*;

verus! {

/// One process that was run.
#[derive(Debug, Clone)]
pub struct Execution {
    pub command: Command,
    pub run: Run,
}

/// What was run: the program, its arguments, its environment and the
/// directory it was started in.
#[derive(Debug, Clone)]
pub struct Command {
    pub program: String,
    pub arguments: Vec<String>,
    pub environment: EnvironmentBlock,
    pub working_dir: String,
}

/// How it ran: the process, its parent, and what happened to it.
#[derive(Debug, Clone)]
pub struct Run {
    pub events: Vec<Event>,
    pub pid: u32,
    pub ppid: u32,
}

/// Something that happened to a process, and when: the time is counted in
/// milliseconds since the first of January 1970.
#[derive(Debug, Clone, Copy, PartialEq, Eq, Structural)]
pub struct Event {
    pub at: u64,
    pub kind: EventKind,
}

#[derive(Debug, Clone, Copy, PartialEq, Eq, Structural)]
pub enum EventKind {
    Start,
    Stop { status: u32 },
}

/// What the system said of the process of an event.
#[derive(Debug, Clone)]
pub enum Observation {
    /// A process was created. The command and the parent are missing where
    /// the process could not be read.
    Created(Option<(Command, u32)>),
    /// A process has exited. The status is missing where it could not be
    /// read.
    Exited(Option<u32>),
    /// Nothing was read.
    Nothing,
}

/// Whether the events are those of a process that is running: one start.
pub open spec fn running(events: Seq<Event>) -> bool {
    events.len() == 1 && events[0].kind == EventKind::Start
}

/// Whether the events are those of a process that has run: one start, and
/// one stop after it.
pub open spec fn completed(events: Seq<Event>) -> bool {
    events.len() == 2 && events[0].kind == EventKind::Start && events[1].kind is Stop
}

#[derive(Debug, Clone)]
struct Record {
    id: u64,
    execution: Execution,
}

/// The log: the executions in the order in which they began. An execution
/// that has a start and no stop is that of a process that is running.
#[derive(Debug, Clone)]
pub struct ExecutionLogger {
    executions: Vec<Record>,
    next_id: u64,
}

impl ExecutionLogger {
    /// The number of executions in the log.
    pub closed spec fn count(&self) -> nat {
        self.executions@.len()
    }

    /// The execution at a position of the log.
    pub closed spec fn execution(&self, position: int) -> Execution {
        self.executions@[position].execution
    }

    /// The number under which the execution at a position was logged.
    pub closed spec fn id(&self, position: int) -> u64 {
        self.executions@[position].id
    }

    /// The number that the next execution gets.
    pub closed spec fn next_id(&self) -> u64 {
        self.next_id
    }

    /// Whether the execution at a position is that of a running process.
    pub open spec fn runs(&self, position: int) -> bool {
        running(self.execution(position).run.events@)
    }

    /// The processes that are running.
    pub open spec fn live(&self) -> Set<u32> {
        Set::new(
            |pid: u32|
                exists|i: int|
                    0 <= i < self.count() && self.runs(i) && (#[trigger] self.execution(i)).run.pid
                        == pid,
        )
    }

    /// The log is sound: the executions are numbered in the order in which
    /// they began; each has run or is running; and no two running ones are
    /// of the same process.
    pub open spec fn wf(&self) -> bool {
        &&& forall|i: int, j: int|
            0 <= i < j < self.count() ==> #[trigger] self.id(i) < #[trigger] self.id(j)
        &&& forall|i: int| 0 <= i < self.count() ==> #[trigger] self.id(i) < self.next_id()
        &&& forall|i: int|
            0 <= i < self.count() ==> running((#[trigger] self.execution(i)).run.events@)
                || completed(self.execution(i).run.events@)
        &&& forall|i: int, j: int|
            0 <= i < j < self.count() && self.runs(i) && self.runs(j) ==> (
            #[trigger] self.execution(i)).run.pid != (#[trigger] self.execution(j)).run.pid
    }

    /// Whether `after` is this log with one more execution at its end: that
    /// of the process `process_id`, which began at `at`.
    pub open spec fn began(
        &self,
        after: Self,
        process_id: u32,
        command: Command,
        ppid: u32,
        at: u64,
    ) -> bool {
        let n = self.count() as int;
        &&& after.count() == n + 1
        &&& after.next_id() == self.next_id() + 1
        &&& after.live() == self.live().insert(process_id)
        &&& forall|i: int|
            0 <= i < n ==> #[trigger] after.execution(i) == self.execution(i) && after.id(i)
                == self.id(i)
        &&& after.id(n) == self.next_id()
        &&& after.execution(n).command == command
        &&& after.execution(n).run.pid == process_id
        &&& after.execution(n).run.ppid == ppid
        &&& after.execution(n).run.events@ == seq![Event { at, kind: EventKind::Start }]
    }

    /// Whether `after` is this log after the end of the process `process_id`
    /// at `at`. Where the process is not known to run, the log is as it was.
    /// Else the execution of the process has got its stop, or has left the
    /// log where there is no status; the other executions are as they were.
    pub open spec fn ended(&self, after: Self, process_id: u32, status: Option<u32>, at: u64) -> bool {
        &&& after.next_id() == self.next_id()
        &&& after.live() == self.live().remove(process_id)
        &&& !self.live().contains(process_id) ==> after == *self
        &&& self.live().contains(process_id) ==> exists|i: int|
            {
                &&& 0 <= i < self.count()
                &&& self.runs(i)
                &&& (#[trigger] self.execution(i)).run.pid == process_id
                &&& match status {
                    Some(status) => {
                        &&& after.count() == self.count()
                        &&& after.execution(i).command == self.execution(i).command
                        &&& after.execution(i).run.pid == process_id
                        &&& after.execution(i).run.ppid == self.execution(i).run.ppid
                        &&& after.execution(i).run.events@ == self.execution(i).run.events@.push(
                            Event { at, kind: EventKind::Stop { status } },
                        )
                        &&& forall|j: int|
                            0 <= j < self.count() && j != i ==> #[trigger] after.execution(j)
                                == self.execution(j)
                    },
                    None => {
                        &&& after.count() == self.count() - 1
                        &&& forall|j: int|
                            0 <= j < i ==> #[trigger] after.execution(j) == self.execution(j)
                        &&& forall|j: int|
                            i <= j < after.count() ==> #[trigger] after.execution(j)
                                == self.execution(j + 1)
                    },
                }
            }
    }

    /// Once no process runs, every execution has exactly one start and,
    /// after it, exactly one stop.
    pub proof fn lemma_start_then_stop(&self)
        requires
            self.wf(),
            self.live() == Set::<u32>::empty(),
        ensures
            forall|i: int|
                0 <= i < self.count() ==> completed((#[trigger] self.execution(i)).run.events@),
    {
        assert forall|i: int| 0 <= i < self.count() implies completed(
            (#[trigger] self.execution(i)).run.events@,
        ) by {
            if self.runs(i) {
                assert(self.live().contains(self.execution(i).run.pid));
                assert(false);
            }
        }
    }

    /// The empty log. Its first execution gets the number 0.
    pub fn new() -> (result: Self)
        ensures
            result.wf(),
            result.count() == 0,
            result.next_id() == 0,
            result.live() == Set::<u32>::empty(),
    {
        let result = Self { executions: Vec::new(), next_id: 0 };
        assert(result.live() =~= Set::<u32>::empty());
        result
    }

    /// The position of the execution of a running process.
    fn position_of(&self, process_id: u32) -> (result: Option<usize>)
        ensures
            match result {
                Some(i) => i < self.count() && self.runs(i as int) && self.execution(
                    i as int,
                ).run.pid == process_id,
                None => !self.live().contains(process_id),
            },
            result is Some ==> self.live().contains(process_id),
    {
        let mut i: usize = 0;
        while i < self.executions.len()
            invariant
                i <= self.executions.len(),
                forall|j: int|
                    0 <= j < i ==> !(self.runs(j) && (#[trigger] self.execution(j)).run.pid
                        == process_id),
            decreases self.executions.len() - i,
        {
            let run = &self.executions[i].execution.run;
            if run.pid == process_id && run.events.len() == 1 && is_start(&run.events[0]) {
                assert(self.runs(i as int) && self.execution(i as int).run.pid == process_id);
                return Some(i);
            }
            i += 1;
        }
        None
    }

    /// Whether the process is known to run.
    pub fn is_live(&self, process_id: u32) -> (result: bool)
        ensures
            result == self.live().contains(process_id),
    {
        self.position_of(process_id).is_some()
    }

    /// Whether the log can take another execution.
    pub fn has_room(&self) -> (result: bool)
        ensures
            result == (self.next_id() < u64::MAX),
    {
        self.next_id < u64::MAX
    }

    /// Logs the start of a process.
    pub fn add_execution(&mut self, process_id: u32, command: Command, ppid: u32, at: u64)
        requires
            old(self).wf(),
            old(self).next_id() < u64::MAX,
            !old(self).live().contains(process_id),
        ensures
            final(self).wf(),
            old(self).began(*final(self), process_id, command, ppid, at),
    {
        let ghost before = *self;
        let mut events: Vec<Event> = Vec::new();
        events.push(Event { at, kind: EventKind::Start });
        let execution = Execution { command, run: Run { events, pid: process_id, ppid } };
        self.executions.push(Record { id: self.next_id, execution });
        self.next_id = self.next_id + 1;
        proof {
            let n = before.count() as int;
            assert(self.execution(n).run.events@ =~= seq![Event { at, kind: EventKind::Start }]);
            assert forall|i: int| 0 <= i < n implies #[trigger] self.execution(i)
                == before.execution(i) && self.id(i) == before.id(i) by {
                assert(self.executions@[i] == before.executions@[i]);
            }
            assert forall|i: int, j: int|
                0 <= i < j < self.count() && self.runs(i) && self.runs(j) implies (
            #[trigger] self.execution(i)).run.pid != (#[trigger] self.execution(j)).run.pid by {
                assert(self.execution(i) == before.execution(i));
                if j == n {
                    assert(before.live().contains(before.execution(i).run.pid));
                } else {
                    assert(self.execution(j) == before.execution(j));
                }
            }
            assert forall|i: int, j: int| 0 <= i < j < self.count() implies #[trigger] self.id(i)
                < #[trigger] self.id(j) by {
                assert(self.id(i) == before.id(i));
                if j < n {
                    assert(self.id(j) == before.id(j));
                }
            }
            assert forall|i: int| 0 <= i < self.count() implies #[trigger] self.id(i)
                < self.next_id() by {
                if i < n {
                    assert(self.id(i) == before.id(i));
                }
            }
            assert forall|i: int| 0 <= i < self.count() implies running(
                (#[trigger] self.execution(i)).run.events@,
            ) || completed(self.execution(i).run.events@) by {
                if i < n {
                    assert(self.execution(i) == before.execution(i));
                }
            }
            assert forall|pid: u32| self.live().contains(pid) == before.live().insert(
                process_id,
            ).contains(pid) by {
                if self.live().contains(pid) {
                    let i = choose|i: int|
                        0 <= i < self.count() && self.runs(i) && (#[trigger] self.execution(
                            i,
                        )).run.pid == pid;
                    if i < n {
                        assert(self.execution(i) == before.execution(i));
                        assert(before.runs(i));
                    }
                }
                if before.live().contains(pid) {
                    let i = choose|i: int|
                        0 <= i < n && before.runs(i) && (#[trigger] before.execution(i)).run.pid
                            == pid;
                    assert(self.execution(i) == before.execution(i));
                    assert(self.runs(i));
                }
                if pid == process_id {
                    assert(self.runs(n));
                }
            }
            assert(self.live() =~= before.live().insert(process_id));
        }
    }

    /// Logs the end of a process. Where the process is not known to run,
    /// nothing is logged. Where its status could not be read, its execution
    /// is dropped from the log.
    pub fn finish_execution(&mut self, process_id: u32, status: Option<u32>, at: u64)
        requires
            old(self).wf(),
        ensures
            final(self).wf(),
            old(self).ended(*final(self), process_id, status, at),
    {
        let ghost before = *self;
        let position = self.position_of(process_id);
        match position {
            None => {
                assert(self.live() =~= before.live().remove(process_id));
            },
            Some(i) => {
                let record = self.executions.remove(i);
                let ghost without = *self;
                proof {
                    assert(record == before.executions@[i as int]);
                    assert forall|j: int| 0 <= j < without.count() implies #[trigger] without.id(j)
                        == before.id(if j < i { j } else { j + 1 }) && without.execution(j)
                        == before.execution(if j < i { j } else { j + 1 }) by {}
                }
                match status {
                    Some(status) => {
                        let Record { id, execution } = record;
                        let Execution { command, run } = execution;
                        let Run { events, pid, ppid } = run;
                        let mut events = events;
                        events.push(Event { at, kind: EventKind::Stop { status } });
                        self.executions.insert(
                            i,
                            Record { id, execution: Execution { command, run: Run {
                                events,
                                pid,
                                ppid,
                            } } },
                        );
                        proof {
                            assert(self.count() == before.count());
                            assert forall|j: int| 0 <= j < before.count() implies #[trigger] self.id(
                                j,
                            ) == before.id(j) by {
                                if j < i {
                                    assert(self.executions@[j] == without.executions@[j]);
                                } else if j > i {
                                    assert(self.executions@[j] == without.executions@[j - 1]);
                                }
                            }
                            assert forall|j: int|
                                0 <= j < before.count() && j != i implies #[trigger] self.execution(
                                j,
                            ) == before.execution(j) by {
                                if j < i {
                                    assert(self.executions@[j] == without.executions@[j]);
                                } else {
                                    assert(self.executions@[j] == without.executions@[j - 1]);
                                }
                            }
                            assert(completed(self.execution(i as int).run.events@));
                            assert(!self.runs(i as int));
                            assert forall|a: int, b: int| 0 <= a < b < self.count() implies (
                            #[trigger] self.id(a)) < (#[trigger] self.id(b)) by {
                                assert(self.id(a) == before.id(a));
                                assert(self.id(b) == before.id(b));
                            }
                            assert forall|a: int| 0 <= a < self.count() implies (
                            #[trigger] self.id(a)) < self.next_id() by {
                                assert(self.id(a) == before.id(a));
                            }
                            assert forall|a: int| 0 <= a < self.count() implies running(
                                (#[trigger] self.execution(a)).run.events@,
                            ) || completed(self.execution(a).run.events@) by {
                                if a != i {
                                    assert(self.execution(a) == before.execution(a));
                                }
                            }
                            assert forall|a: int, b: int|
                                0 <= a < b < self.count() && self.runs(a) && self.runs(
                                    b,
                                ) implies (#[trigger] self.execution(a)).run.pid != (
                            #[trigger] self.execution(b)).run.pid by {
                                assert(self.execution(a) == before.execution(a));
                                assert(self.execution(b) == before.execution(b));
                            }
                            assert forall|p: u32| self.live().contains(p) == before.live().remove(
                                process_id,
                            ).contains(p) by {
                                if self.live().contains(p) {
                                    let a = choose|a: int|
                                        0 <= a < self.count() && self.runs(a) && (
                                        #[trigger] self.execution(a)).run.pid == p;
                                    assert(self.execution(a) == before.execution(a));
                                    assert(before.runs(a));
                                    if p == process_id {
                                        if a < i {
                                            assert(before.execution(a).run.pid
                                                != before.execution(i as int).run.pid);
                                        } else {
                                            assert(before.execution(i as int).run.pid
                                                != before.execution(a).run.pid);
                                        }
                                    }
                                }
                                if before.live().contains(p) && p != process_id {
                                    let a = choose|a: int|
                                        0 <= a < before.count() && before.runs(a) && (
                                        #[trigger] before.execution(a)).run.pid == p;
                                    assert(self.execution(a) == before.execution(a));
                                    assert(self.runs(a));
                                }
                            }
                            assert(self.live() =~= before.live().remove(process_id));
                        }
                    },
                    None => {
                        proof {
                            assert forall|a: int, b: int| 0 <= a < b < self.count() implies (
                            #[trigger] self.id(a)) < (#[trigger] self.id(b)) by {
                                let x = if a < i { a } else { a + 1 };
                                let y = if b < i { b } else { b + 1 };
                                assert(self.id(a) == before.id(x));
                                assert(self.id(b) == before.id(y));
                            }
                            assert forall|a: int| 0 <= a < self.count() implies (
                            #[trigger] self.id(a)) < self.next_id() by {
                                let x = if a < i { a } else { a + 1 };
                                assert(self.id(a) == before.id(x));
                            }
                            assert forall|a: int| 0 <= a < self.count() implies running(
                                (#[trigger] self.execution(a)).run.events@,
                            ) || completed(self.execution(a).run.events@) by {
                                let x = if a < i { a } else { a + 1 };
                                assert(self.execution(a) == before.execution(x));
                            }
                            assert forall|a: int, b: int|
                                0 <= a < b < self.count() && self.runs(a) && self.runs(
                                    b,
                                ) implies (#[trigger] self.execution(a)).run.pid != (
                            #[trigger] self.execution(b)).run.pid by {
                                let x = if a < i { a } else { a + 1 };
                                let y = if b < i { b } else { b + 1 };
                                assert(self.execution(a) == before.execution(x));
                                assert(self.execution(b) == before.execution(y));
                            }
                            assert forall|p: u32| self.live().contains(p) == before.live().remove(
                                process_id,
                            ).contains(p) by {
                                if self.live().contains(p) {
                                    let a = choose|a: int|
                                        0 <= a < self.count() && self.runs(a) && (
                                        #[trigger] self.execution(a)).run.pid == p;
                                    let x = if a < i { a } else { a + 1 };
                                    assert(self.execution(a) == before.execution(x));
                                    assert(before.runs(x));
                                    if p == process_id {
                                        if x < i {
                                            assert(before.execution(x).run.pid
                                                != before.execution(i as int).run.pid);
                                        } else {
                                            assert(before.execution(i as int).run.pid
                                                != before.execution(x).run.pid);
                                        }
                                    }
                                }
                                if before.live().contains(p) && p != process_id {
                                    let x = choose|x: int|
                                        0 <= x < before.count() && before.runs(x) && (
                                        #[trigger] before.execution(x)).run.pid == p;
                                    let a = if x < i { x } else { x - 1 };
                                    assert(self.execution(a) == before.execution(x));
                                    assert(self.runs(a));
                                }
                            }
                            assert(self.live() =~= before.live().remove(process_id));
                        }
                    },
                }
            },
        }
    }

    /// Takes note of an event, for what the system said of its process at
    /// time `at`, and says how the loop goes on. The start of a process is
    /// logged where the process could be read and the log has room; the end of
    /// a process is logged as `finish_execution` says. After the end of
    /// the last running process the loop is told to detach and end.
    pub fn handle_event(&mut self, event: &DebugEvent, observation: Observation, at: u64) -> (result:
        DebugEventResponse)
        requires
            old(self).wf(),
            event.spec_info() == DebugEventInfo::CreateProcess ==> !old(self).live().contains(
                event.spec_process_id(),
            ),
        ensures
            final(self).wf(),
            match event.spec_info() {
                DebugEventInfo::CreateProcess => {
                    &&& result == DebugEventResponse::Continue(ExceptionContinuation::NotHandled)
                    &&& match observation {
                        Observation::Created(Some((command, ppid))) if old(self).next_id()
                            < u64::MAX => old(self).began(
                            *final(self),
                            event.spec_process_id(),
                            command,
                            ppid,
                            at,
                        ),
                        _ => *final(self) == *old(self),
                    }
                },
                DebugEventInfo::ExitProcess => {
                    &&& old(self).ended(
                        *final(self),
                        event.spec_process_id(),
                        match observation {
                            Observation::Exited(status) => status,
                            _ => None,
                        },
                        at,
                    )
                    &&& result == if final(self).live() == Set::<u32>::empty() {
                        DebugEventResponse::ExitDetach(ExceptionContinuation::NotHandled)
                    } else {
                        DebugEventResponse::Continue(ExceptionContinuation::NotHandled)
                    }
                },
                _ => {
                    &&& *final(self) == *old(self)
                    &&& result == DebugEventResponse::Continue(ExceptionContinuation::NotHandled)
                },
            },
    {
        match event.info() {
            DebugEventInfo::CreateProcess => {
                if let Observation::Created(Some((command, ppid))) = observation {
                    if self.has_room() {
                        self.add_execution(event.process_id(), command, ppid, at);
                    }
                }
                DebugEventResponse::Continue(ExceptionContinuation::NotHandled)
            },
            DebugEventInfo::ExitProcess => {
                let status = match observation {
                    Observation::Exited(status) => status,
                    _ => None,
                };
                self.finish_execution(event.process_id(), status, at);
                if self.is_done() {
                    DebugEventResponse::ExitDetach(ExceptionContinuation::NotHandled)
                } else {
                    DebugEventResponse::Continue(ExceptionContinuation::NotHandled)
                }
            },
            _ => DebugEventResponse::Continue(ExceptionContinuation::NotHandled),
        }
    }

    /// Whether no process is known to run.
    pub fn is_done(&self) -> (result: bool)
        ensures
            result == (self.live() == Set::<u32>::empty()),
    {
        let mut i: usize = 0;
        while i < self.executions.len()
            invariant
                i <= self.executions.len(),
                forall|j: int| 0 <= j < i ==> !self.runs(j),
            decreases self.executions.len() - i,
        {
            let run = &self.executions[i].execution.run;
            if run.events.len() == 1 && is_start(&run.events[0]) {
                assert(self.runs(i as int));
                assert(self.live().contains(self.execution(i as int).run.pid));
                return false;
            }
            i += 1;
        }
        assert(self.live() =~= Set::<u32>::empty());
        true
    }

    /// The executions of the log, in the order in which they began.
    pub fn executions(&self) -> (result: Vec<&Execution>)
        ensures
            result.len() == self.count(),
            forall|i: int| 0 <= i < result.len() ==> *(#[trigger] result[i]) == self.execution(i),
    {
        let mut result: Vec<&Execution> = Vec::new();
        let mut i: usize = 0;
        while i < self.executions.len()
            invariant
                i <= self.executions.len(),
                result.len() == i,
                forall|j: int| 0 <= j < i ==> *(#[trigger] result[j]) == self.execution(j),
            decreases self.executions.len() - i,
        {
            result.push(&self.executions[i].execution);
            i += 1;
        }
        result
    }
}

/// Whether the event is a start.
fn is_start(event: &Event) -> (result: bool)
    ensures
        result == (event.kind == EventKind::Start),
{
    match event.kind {
        EventKind::Start => true,
        EventKind::Stop { .. } => false,
    }
}

} // verus!
