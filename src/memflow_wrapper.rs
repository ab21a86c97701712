//! The connection to the backend and the table of open processes, and what
//! each entry point of the host ABI decides.
//!
//! The backend itself (the connector, the kernel view and the process views)
//! is reached outside the library; its views are carried here as opaque
//! values `O` and `P`, and what it answers is handed to the functions below
//! as plain values.
use crate::config::Config;
use crate::reclass::{ProcessHandle, ProcessId};
use std::collections::hash_map::Entry;
use std::collections::HashMap;
use vstd::prelude::*;

verus! {

/// Process id under which the kernel is listed as a process.
pub const NTOSKRNL_PID: ProcessId = 4;

/// Handle that stands for the kernel; it is never in the handle table.
pub const NTOSKRNL_HANDLE: ProcessHandle = 4;

/// What a handle refers to.
#[derive(Clone, Copy, Debug, PartialEq, Eq, Structural)]
pub enum Subject {
    /// The kernel, through the kernel view.
    Kernel,
    /// An open process, by its key in the handle table.
    Process(u32),
}

/// The key under which the handle table holds a handle (the handle cut to
/// 32 bits).
pub open spec fn handle_key(handle: ProcessHandle) -> u32 {
    handle as u32
}

/// What `handle` refers to in a bridge whose handle table has the keys of
/// `table`.
pub open spec fn subject_of<P>(table: Map<u32, P>, handle: ProcessHandle) -> Option<Subject> {
    if handle == NTOSKRNL_HANDLE {
        Some(Subject::Kernel)
    } else if table.contains_key(handle_key(handle)) {
        Some(Subject::Process(handle_key(handle)))
    } else {
        None
    }
}

/// The handle table after the host closed `handle`.
pub open spec fn closed<P>(table: Map<u32, P>, handle: ProcessHandle) -> Map<u32, P> {
    if handle == NTOSKRNL_HANDLE {
        table
    } else {
        table.remove(handle_key(handle))
    }
}

/// The handle that the host gets for a subject.
pub open spec fn handle_of(subject: Subject) -> ProcessHandle {
    match subject {
        Subject::Kernel => NTOSKRNL_HANDLE,
        Subject::Process(pid) => pid as ProcessHandle,
    }
}

/// What opening process `pid` means: the kernel is not opened through the
/// backend, any other id is.
pub open spec fn open_subject_of(pid: ProcessId) -> Subject {
    if pid == NTOSKRNL_PID {
        Subject::Kernel
    } else {
        Subject::Process(pid as u32)
    }
}

/// What opening process `pid` means.
pub fn open_subject(pid: ProcessId) -> (r: Subject)
    ensures
        r == open_subject_of(pid),
{
    if pid == NTOSKRNL_PID {
        Subject::Kernel
    } else {
        Subject::Process(pid as u32)
    }
}

/// The handle that the host gets for a subject; an open process's handle is
/// its process id.
pub fn subject_handle(subject: Subject) -> (r: ProcessHandle)
    ensures
        r == handle_of(subject),
{
    match subject {
        Subject::Kernel => NTOSKRNL_HANDLE,
        Subject::Process(pid) => pid as ProcessHandle,
    }
}

/// The connection to the backend: settings, kernel view and open processes.
pub struct Memflow<O, P> {
    pub config: Config,
    pub os: O,
    pub handles: HashMap<u32, P>,
}

impl<O, P> Memflow<O, P> {
    /// A connection with the given settings and kernel view and no open
    /// process.
    pub fn new(config: Config, os: O) -> (r: Self)
        ensures
            r.config == config,
            r.os == os,
            r.handles@ == Map::<u32, P>::empty(),
    {
        Memflow { config, os, handles: HashMap::new() }
    }

    /// Stores the view of process `pid` that the backend opened, replacing
    /// any earlier one, and returns its handle, which is the process id.
    pub fn open_process(&mut self, pid: u32, process: P) -> (r: u32)
        ensures
            r == pid,
            final(self).handles@ == old(self).handles@.insert(pid, process),
            final(self).config == old(self).config,
            final(self).os == old(self).os,
    {
        broadcast use vstd::std_specs::hash::group_hash_axioms;

        self.handles.insert(pid, process);
        pid
    }

    /// Drops the view behind `handle`; closing a handle that is not open does
    /// nothing.
    pub fn close_process(&mut self, handle: u32)
        ensures
            final(self).handles@ == old(self).handles@.remove(handle),
            final(self).config == old(self).config,
            final(self).os == old(self).os,
    {
        broadcast use vstd::std_specs::hash::group_hash_axioms;

        self.handles.remove(&handle);
    }

    /// Whether `handle` is in the handle table.
    pub fn is_open(&self, handle: u32) -> (r: bool)
        ensures
            r == self.handles@.contains_key(handle),
    {
        broadcast use vstd::std_specs::hash::group_hash_axioms;

        self.handles.contains_key(&handle)
    }

    /// The kernel view.
    pub fn get_kernel_mut(&mut self) -> (r: &mut O)
        ensures
            *r == old(self).os,
            final(self).os == *final(r),
            final(self).config == old(self).config,
            final(self).handles == old(self).handles,
    {
        &mut self.os
    }

    /// The view of the open process behind `handle`, if there is one.
    pub fn get_process_mut(&mut self, handle: u32) -> (r: Option<&mut P>)
        ensures
            match r {
                Some(p) => old(self).handles@.contains_key(handle) && *p == old(self).handles@[handle]
                    && final(self).handles@ == old(self).handles@.insert(handle, *final(p)),
                None => !old(self).handles@.contains_key(handle) && final(self).handles@ == old(
                    self,
                ).handles@,
            },
            final(self).config == old(self).config,
            final(self).os == old(self).os,
    {
        broadcast use vstd::std_specs::hash::group_hash_axioms;

        match self.handles.entry(handle) {
            Entry::Occupied(o) => Some(o.into_mut()),
            Entry::Vacant(v) => {
                v.into_key();
                None
            },
        }
    }

    /// Closes `handle` as the host asks: the kernel's handle is never in the
    /// table and stays valid; any other handle leaves the table.
    pub fn close_remote(&mut self, handle: ProcessHandle)
        ensures
            final(self).handles@ == closed(old(self).handles@, handle),
            final(self).config == old(self).config,
            final(self).os == old(self).os,
    {
        if handle != NTOSKRNL_HANDLE {
            self.close_process(handle as u32);
        }
    }

    /// What `handle` refers to: the kernel for the kernel's handle, an open
    /// process for a handle in the table, nothing otherwise.
    pub fn subject(&self, handle: ProcessHandle) -> (r: Option<Subject>)
        ensures
            r == subject_of(self.handles@, handle),
    {
        if handle == NTOSKRNL_HANDLE {
            Some(Subject::Kernel)
        } else if self.is_open(handle as u32) {
            Some(Subject::Process(handle as u32))
        } else {
            None
        }
    }
}

/// The process-wide state of the bridge: not connected yet, or connected.
pub enum Registry<T> {
    Uninitialized,
    Ready(T),
}

impl<T> Registry<T> {
    /// A registry that has not connected yet.
    pub fn new() -> (r: Self)
        ensures
            r is Uninitialized,
    {
        Registry::Uninitialized
    }

    /// Whether the registry holds a connection.
    pub fn is_ready(&self) -> (r: bool)
        ensures
            r == (self is Ready),
    {
        match self {
            Registry::Ready(_) => true,
            Registry::Uninitialized => false,
        }
    }

    /// Takes the outcome of a connection attempt. A success is kept; after a
    /// failure the registry stays unconnected, so the next call tries again
    /// from scratch. A registry that is connected already keeps its
    /// connection.
    pub fn install<E>(&mut self, attempt: Result<T, E>) -> (r: bool)
        ensures
            r == (*final(self) is Ready),
            *old(self) is Ready ==> *final(self) == *old(self),
            *old(self) is Uninitialized ==> match attempt {
                Ok(t) => *final(self) == Registry::Ready(t),
                Err(_) => *final(self) is Uninitialized,
            },
    {
        if self.is_ready() {
            true
        } else {
            match attempt {
                Ok(t) => {
                    *self = Registry::Ready(t);
                    true
                },
                Err(_) => false,
            }
        }
    }

    /// The connection, if there is one.
    pub fn get_mut(&mut self) -> (r: Option<&mut T>)
        ensures
            *old(self) is Uninitialized ==> r is None && *final(self) == *old(self),
            *old(self) is Ready ==> match r {
                Some(t) => *t == old(self)->Ready_0 && *final(self) == Registry::Ready(*final(t)),
                None => false,
            },
    {
        match self {
            Registry::Ready(t) => Some(t),
            Registry::Uninitialized => None,
        }
    }
}

/// Closing a handle a second time changes nothing, and after a handle other
/// than the kernel's has been closed it no longer refers to anything, so it
/// is no longer valid.
pub proof fn lemma_close_idempotent<P>(table: Map<u32, P>, handle: ProcessHandle)
    ensures
        closed(closed(table, handle), handle) == closed(table, handle),
        handle != NTOSKRNL_HANDLE ==> subject_of(closed(table, handle), handle) is None,
{
    assert(closed(closed(table, handle), handle) =~= closed(table, handle));
}

/// Opening two different processes gives them different handles, each
/// referring to its own process view, and the table is the same whichever
/// was opened first.
pub proof fn lemma_open_distinct<P>(table: Map<u32, P>, pid1: u32, p1: P, pid2: u32, p2: P)
    requires
        pid1 != pid2,
        pid1 as ProcessId != NTOSKRNL_PID,
        pid2 as ProcessId != NTOSKRNL_PID,
    ensures
        ({
            let both = table.insert(pid1, p1).insert(pid2, p2);
            &&& both == table.insert(pid2, p2).insert(pid1, p1)
            &&& handle_of(Subject::Process(pid1)) != handle_of(Subject::Process(pid2))
            &&& subject_of(both, handle_of(Subject::Process(pid1))) == Some(Subject::Process(pid1))
            &&& subject_of(both, handle_of(Subject::Process(pid2))) == Some(Subject::Process(pid2))
            &&& both[pid1] == p1
            &&& both[pid2] == p2
        }),
{
    let both = table.insert(pid1, p1).insert(pid2, p2);
    assert(both =~= table.insert(pid2, p2).insert(pid1, p1));
    assert(handle_key(pid1 as ProcessHandle) == pid1);
    assert(handle_key(pid2 as ProcessHandle) == pid2);
}

} // verus!
