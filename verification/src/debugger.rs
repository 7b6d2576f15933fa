//! The decisions of the debug event loop.
//!
//! The loop itself waits for the system and acknowledges its events, which
//! this crate does not do. What the loop has to decide between two waits is
//! here: what an event is, which processes are attached, and what a
//! handler's response asks for.

use std::collections::HashSet;
use vstd::prelude::*;
use vstd::std_specs::hash::*;

verus! {

broadcast use vstd::std_specs::hash::group_hash_axioms;

/// What a handler asks the loop to do with an event.
#[derive(Debug, Clone, Copy, PartialEq, Eq, Structural)]
pub enum DebugEventResponse {
    /// Acknowledge the event and wait for the next one.
    Continue(ExceptionContinuation),
    /// Acknowledge the event, detach from every attached process, and end.
    ExitDetach(ExceptionContinuation),
    /// End at once, without an acknowledgement.
    Exit,
}

#[derive(Debug, Clone, Copy, PartialEq, Eq, Structural)]
pub enum ExceptionContinuation {
    Handled,
    NotHandled,
}

/// The kinds of debug events.
#[derive(Debug, Clone, Copy, PartialEq, Eq, Structural)]
pub enum DebugEventInfo {
    Unknown,
    Exception,
    CreateThread,
    CreateProcess,
    ExitThread,
    ExitProcess,
    LoadDLL,
    UnloadDLL,
    OutputDebugString,
    RIP,
}

/// The kind of event that a code of the system stands for.
pub open spec fn kind_of(code: u32) -> DebugEventInfo {
    if code == 1 {
        DebugEventInfo::Exception
    } else if code == 2 {
        DebugEventInfo::CreateThread
    } else if code == 3 {
        DebugEventInfo::CreateProcess
    } else if code == 4 {
        DebugEventInfo::ExitThread
    } else if code == 5 {
        DebugEventInfo::ExitProcess
    } else if code == 6 {
        DebugEventInfo::LoadDLL
    } else if code == 7 {
        DebugEventInfo::UnloadDLL
    } else if code == 8 {
        DebugEventInfo::OutputDebugString
    } else if code == 9 {
        DebugEventInfo::RIP
    } else {
        DebugEventInfo::Unknown
    }
}

impl DebugEventInfo {
    /// Whether an event of this kind carries a file handle that has to be
    /// closed when the event is done with.
    pub open spec fn owns_file(&self) -> bool {
        *self == DebugEventInfo::CreateProcess || *self == DebugEventInfo::LoadDLL
    }

    pub fn from_code(code: u32) -> (result: Self)
        ensures
            result == kind_of(code),
    {
        match code {
            1 => DebugEventInfo::Exception,
            2 => DebugEventInfo::CreateThread,
            3 => DebugEventInfo::CreateProcess,
            4 => DebugEventInfo::ExitThread,
            5 => DebugEventInfo::ExitProcess,
            6 => DebugEventInfo::LoadDLL,
            7 => DebugEventInfo::UnloadDLL,
            8 => DebugEventInfo::OutputDebugString,
            9 => DebugEventInfo::RIP,
            _ => DebugEventInfo::Unknown,
        }
    }

    /// Whether the file handle of the event has to be closed. A null handle
    /// is never closed.
    pub fn has_file_to_close(&self, handle_is_null: bool) -> (result: bool)
        ensures
            result == (self.owns_file() && !handle_is_null),
    {
        match self {
            DebugEventInfo::CreateProcess | DebugEventInfo::LoadDLL => !handle_is_null,
            _ => false,
        }
    }
}

/// A debug event: the process and the thread that it comes from, and its
/// kind.
#[derive(Debug, Clone, Copy, PartialEq, Eq)]
pub struct DebugEvent {
    process_id: u32,
    thread_id: u32,
    info: DebugEventInfo,
}

impl DebugEvent {
    pub closed spec fn spec_process_id(&self) -> u32 {
        self.process_id
    }

    pub closed spec fn spec_thread_id(&self) -> u32 {
        self.thread_id
    }

    pub closed spec fn spec_info(&self) -> DebugEventInfo {
        self.info
    }

    /// The event of the given code.
    pub fn new(process_id: u32, thread_id: u32, code: u32) -> (result: Self)
        ensures
            result.spec_process_id() == process_id,
            result.spec_thread_id() == thread_id,
            result.spec_info() == kind_of(code),
    {
        Self { process_id, thread_id, info: DebugEventInfo::from_code(code) }
    }

    #[verifier::when_used_as_spec(spec_process_id)]
    pub fn process_id(&self) -> (result: u32)
        ensures
            result == self.spec_process_id(),
    {
        self.process_id
    }

    #[verifier::when_used_as_spec(spec_thread_id)]
    pub fn thread_id(&self) -> (result: u32)
        ensures
            result == self.spec_thread_id(),
    {
        self.thread_id
    }

    #[verifier::when_used_as_spec(spec_info)]
    pub fn info(&self) -> (result: DebugEventInfo)
        ensures
            result == self.spec_info(),
    {
        self.info
    }
}

/// The status with which an event is acknowledged: that it was handled.
pub const DBG_CONTINUE: u32 = 0x0001_0002;

/// The status with which an event is acknowledged: that the exception in it
/// was not handled.
pub const DBG_EXCEPTION_NOT_HANDLED: u32 = 0x8001_0001;

/// The timeout that never ends.
pub const INFINITE: u32 = 0xffff_ffff;

/// What the loop does after a handler has answered.
#[derive(Debug, Clone, PartialEq, Eq)]
pub enum LoopAction {
    /// Acknowledge the event with the status, and wait for the next.
    Continue { status: u32 },
    /// Acknowledge the event with the status, detach from the processes,
    /// and end.
    Detach { status: u32, processes: Vec<u32> },
    /// End at once.
    Return,
}

/// The status that tells the system whether an event was handled.
pub open spec fn status_of(continuation: ExceptionContinuation) -> u32 {
    match continuation {
        ExceptionContinuation::Handled => DBG_CONTINUE,
        ExceptionContinuation::NotHandled => DBG_EXCEPTION_NOT_HANDLED,
    }
}

pub fn continue_status(continuation: ExceptionContinuation) -> (result: u32)
    ensures
        result == status_of(continuation),
{
    match continuation {
        ExceptionContinuation::Handled => DBG_CONTINUE,
        ExceptionContinuation::NotHandled => DBG_EXCEPTION_NOT_HANDLED,
    }
}

/// The timeout that is handed to the system: the one that was given, or the
/// one that never ends.
pub fn wait_timeout(timeout_ms: Option<u32>) -> (result: u32)
    ensures
        result == match timeout_ms {
            Some(timeout) => timeout,
            None => INFINITE,
        },
{
    match timeout_ms {
        Some(timeout) => timeout,
        None => INFINITE,
    }
}

/// The processes that the debugger is attached to.
#[derive(Debug, Default)]
pub struct DebuggedProcesses {
    processes: HashSet<u32>,
}

impl View for DebuggedProcesses {
    type V = Set<u32>;

    closed spec fn view(&self) -> Set<u32> {
        self.processes@
    }
}

impl DebuggedProcesses {
    /// Whether an event keeps to the protocol: a process is created only
    /// while it is not attached, and exits only while it is.
    pub open spec fn admits(&self, event: DebugEvent) -> bool {
        &&& event.spec_info() == DebugEventInfo::CreateProcess ==> !self@.contains(
            event.spec_process_id(),
        )
        &&& event.spec_info() == DebugEventInfo::ExitProcess ==> self@.contains(
            event.spec_process_id(),
        )
    }

    /// The attached processes after an event.
    pub open spec fn after(attached: Set<u32>, event: DebugEvent) -> Set<u32> {
        if event.spec_info() == DebugEventInfo::CreateProcess {
            attached.insert(event.spec_process_id())
        } else if event.spec_info() == DebugEventInfo::ExitProcess {
            attached.remove(event.spec_process_id())
        } else {
            attached
        }
    }

    pub fn new() -> (result: Self)
        ensures
            result@ == Set::<u32>::empty(),
    {
        Self { processes: HashSet::new() }
    }

    /// Whether the process is attached.
    pub fn contains(&self, process_id: u32) -> (result: bool)
        ensures
            result == self@.contains(process_id),
    {
        self.processes.contains(&process_id)
    }

    /// Whether an event keeps to the protocol.
    pub fn accepts(&self, event: &DebugEvent) -> (result: bool)
        ensures
            result == self.admits(*event),
    {
        match event.info {
            DebugEventInfo::CreateProcess => !self.contains(event.process_id),
            DebugEventInfo::ExitProcess => self.contains(event.process_id),
            _ => true,
        }
    }

    /// Takes note of an event: a process that is created is attached from
    /// now on, one that exits is not.
    pub fn observe(&mut self, event: &DebugEvent)
        requires
            old(self).admits(*event),
        ensures
            final(self)@ == Self::after(old(self)@, *event),
    {
        match event.info {
            DebugEventInfo::CreateProcess => {
                self.processes.insert(event.process_id);
            },
            DebugEventInfo::ExitProcess => {
                self.processes.remove(&event.process_id);
            },
            _ => {},
        }
    }

    /// The attached processes, each once, in the order in which the set
    /// hands them out.
    pub fn attached(&self) -> (result: Vec<u32>)
        ensures
            result@.to_set() == self@,
            result@.no_duplicates(),
    {
        let mut result: Vec<u32> = Vec::new();
        for process_id in it: self.processes.iter()
            invariant
                result@ == it.seq().take(it.index() as int).unref(),
                it.seq().unref().to_set() == self.processes@,
                it.seq().no_duplicates(),
                it.index() == it.seq().len() ==> result@ == it.seq().unref(),
        {
            result.push(*process_id);
            assert(it.index() + 1 == it.seq().len() ==> it.seq().take(it.index() + 1)
                =~= it.seq());
        }
        result
    }

    /// What the loop does after the handler's response to an event.
    pub fn react(&self, response: DebugEventResponse) -> (result: LoopAction)
        ensures
            match response {
                DebugEventResponse::Continue(continuation) => result == (LoopAction::Continue {
                    status: status_of(continuation),
                }),
                DebugEventResponse::ExitDetach(continuation) => {
                    &&& result matches LoopAction::Detach { status, processes }
                    &&& status == status_of(continuation)
                    &&& processes@.to_set() == self@
                    &&& processes@.no_duplicates()
                },
                DebugEventResponse::Exit => result == LoopAction::Return,
            },
    {
        match response {
            DebugEventResponse::Continue(continuation) => LoopAction::Continue {
                status: continue_status(continuation),
            },
            DebugEventResponse::ExitDetach(continuation) => LoopAction::Detach {
                status: continue_status(continuation),
                processes: self.attached(),
            },
            DebugEventResponse::Exit => LoopAction::Return,
        }
    }
}

} // verus!
