//! The local environment's bookkeeping: bounded capture of process output
//! and the table of persistent processes with their handles.
use crate::text::{decimal, numbered};
use crate::text_map::{ascending, entries_map, TextMap};
use vstd::prelude::*;

verus! {

pub const LOCAL_ENVIRONMENT_PLUGIN: &'static str = "phenix.environment.local";

/// The most output bytes kept of one stream.
pub const MAX_CAPTURE_BYTES: usize = 1048576;

/// What the local environment offers.
#[derive(Clone, Debug, PartialEq, Eq)]
pub struct EnvironmentDescription {
    pub provider: String,
    pub persistent_processes: bool,
    pub pty: bool,
}

/// The local environment keeps persistent processes and has no terminal.
pub fn describe() -> (r: EnvironmentDescription)
    ensures
        r.provider@ == LOCAL_ENVIRONMENT_PLUGIN@,
        r.persistent_processes,
        !r.pty,
{
    EnvironmentDescription {
        provider: String::from_str(LOCAL_ENVIRONMENT_PLUGIN),
        persistent_processes: true,
        pty: false,
    }
}

/// Output captured from a stream, up to `MAX_CAPTURE_BYTES`, and whether
/// anything was dropped.
pub struct CaptureBuffer {
    bytes: Vec<u8>,
    truncated: bool,
}

impl CaptureBuffer {
    pub closed spec fn captured(self) -> Seq<u8> {
        self.bytes@
    }

    pub closed spec fn was_truncated(self) -> bool {
        self.truncated
    }

    /// A capture never holds more than `MAX_CAPTURE_BYTES`.
    pub open spec fn wf(self) -> bool {
        self.captured().len() <= MAX_CAPTURE_BYTES
    }

    pub fn new() -> (r: Self)
        ensures
            r.wf(),
            r.captured() == Seq::<u8>::empty(),
            !r.was_truncated(),
    {
        CaptureBuffer { bytes: Vec::new(), truncated: false }
    }

    /// Keeps as much of `bytes` as still fits; dropping any of it marks the
    /// capture truncated.
    pub fn push(&mut self, bytes: &[u8])
        requires
            old(self).wf(),
        ensures
            final(self).wf(),
            final(self).captured().len() <= MAX_CAPTURE_BYTES,
            ({
                let remaining = MAX_CAPTURE_BYTES - old(self).captured().len();
                let kept = if bytes@.len() <= remaining {
                    bytes@.len() as int
                } else {
                    remaining as int
                };
                &&& final(self).captured() == old(self).captured() + bytes@.take(kept)
                &&& final(self).was_truncated() == (old(self).was_truncated() || bytes@.len() > remaining)
            }),
    {
        let remaining = MAX_CAPTURE_BYTES - self.bytes.len();
        let kept = if bytes.len() <= remaining {
            bytes.len()
        } else {
            remaining
        };
        let ghost start = self.bytes@;
        let mut i: usize = 0;
        while i < kept
            invariant
                kept <= bytes@.len(),
                start == old(self).bytes@,
                self.truncated == old(self).truncated,
                remaining == MAX_CAPTURE_BYTES - start.len(),
                kept == (if bytes@.len() <= remaining {
                    bytes@.len()
                } else {
                    remaining as nat
                }),
                i <= kept,
                self.bytes@ == start + bytes@.take(i as int),
            decreases kept - i,
        {
            self.bytes.push(bytes[i]);
            proof {
                assert(bytes@.take(i + 1) =~= bytes@.take(i as int).push(bytes@[i as int]));
            }
            i = i + 1;
        }
        if bytes.len() > remaining {
            self.truncated = true;
        }
    }

    /// Hands out what was captured and empties the buffer.
    pub fn take(&mut self) -> (r: (Vec<u8>, bool))
        requires
            old(self).wf(),
        ensures
            final(self).wf(),
            r.0@ == old(self).captured(),
            r.1 == old(self).was_truncated(),
            final(self).captured() == Seq::<u8>::empty(),
            !final(self).was_truncated(),
    {
        let mut bytes: Vec<u8> = Vec::new();
        std::mem::swap(&mut bytes, &mut self.bytes);
        let truncated = self.truncated;
        self.truncated = false;
        (bytes, truncated)
    }
}

/// The first `MAX_CAPTURE_BYTES` of an output, and whether anything was cut.
pub fn bounded(bytes: Vec<u8>) -> (r: (Vec<u8>, bool))
    ensures
        bytes@.len() <= MAX_CAPTURE_BYTES ==> r.0@ == bytes@ && !r.1,
        bytes@.len() > MAX_CAPTURE_BYTES ==> r.0@ == bytes@.take(MAX_CAPTURE_BYTES as int) && r.1,
{
    if bytes.len() <= MAX_CAPTURE_BYTES {
        (bytes, false)
    } else {
        let mut kept: Vec<u8> = Vec::new();
        let mut i: usize = 0;
        while i < MAX_CAPTURE_BYTES
            invariant
                MAX_CAPTURE_BYTES < bytes@.len(),
                i <= MAX_CAPTURE_BYTES,
                kept@ == bytes@.take(i as int),
            decreases MAX_CAPTURE_BYTES - i,
        {
            kept.push(bytes[i]);
            proof {
                assert(bytes@.take(i + 1) =~= bytes@.take(i as int).push(bytes@[i as int]));
            }
            i = i + 1;
        }
        (kept, true)
    }
}

/// The handle of the process opened as the `n`-th.
pub open spec fn process_handle(n: u64) -> Seq<char> {
    "process-"@ + decimal(n as nat)
}

/// The persistent processes, by handle, and the number the next handle takes.
pub struct ProcessTable<P> {
    processes: TextMap<P>,
    next_process_id: u64,
}

impl<P> ProcessTable<P> {
    pub closed spec fn wf(self) -> bool {
        self.processes.wf()
    }

    pub closed spec fn open_processes(self) -> Map<Seq<char>, P> {
        self.processes@
    }

    pub closed spec fn next_id(self) -> u64 {
        self.next_process_id
    }

    pub fn new() -> (r: Self)
        ensures
            r.wf(),
            r.open_processes() == Map::<Seq<char>, P>::empty(),
            r.next_id() == 1,
    {
        ProcessTable { processes: TextMap::new(), next_process_id: 1 }
    }

    /// Keeps a newly spawned process under the next handle and returns the
    /// handle; the number saturates at its maximum.
    pub fn open(&mut self, process: P) -> (handle: String)
        requires
            old(self).wf(),
        ensures
            final(self).wf(),
            handle@ == process_handle(old(self).next_id()),
            final(self).open_processes() == old(self).open_processes().insert(handle@, process),
            final(self).next_id() == if old(self).next_id() == u64::MAX {
                u64::MAX
            } else {
                (old(self).next_id() + 1) as u64
            },
    {
        let handle = numbered("process-", self.next_process_id);
        self.next_process_id = self.next_process_id.saturating_add(1);
        self.processes.insert(handle.clone(), process);
        handle
    }

    /// Takes a process out of the table.
    pub fn remove(&mut self, handle: &String) -> (r: Option<P>)
        requires
            old(self).wf(),
        ensures
            final(self).wf(),
            final(self).next_id() == old(self).next_id(),
            final(self).open_processes() == old(self).open_processes().remove(handle@),
            match r {
                Some(p) => old(self).open_processes().contains_key(handle@) && old(self).open_processes()[handle@]
                    == p,
                None => !old(self).open_processes().contains_key(handle@),
            },
    {
        self.processes.remove(handle)
    }

    /// Puts a process back under its handle.
    pub fn restore(&mut self, handle: String, process: P)
        requires
            old(self).wf(),
        ensures
            final(self).wf(),
            final(self).next_id() == old(self).next_id(),
            final(self).open_processes() == old(self).open_processes().insert(handle@, process),
    {
        self.processes.insert(handle, process);
    }

    /// The handles of all open processes, in handle order, emptying the table.
    pub fn drain(&mut self) -> (r: Vec<(String, P)>)
        requires
            old(self).wf(),
        ensures
            final(self).wf(),
            final(self).open_processes() == Map::<Seq<char>, P>::empty(),
            final(self).next_id() == old(self).next_id(),
            ascending(r@),
            entries_map(r@) == old(self).open_processes(),
    {
        let mut table: TextMap<P> = TextMap::new();
        std::mem::swap(&mut table, &mut self.processes);
        proof {
            table.lemma_entries();
        }
        table.into_entries()
    }
}

} // verus!
