//! The diagnostic snapshot: one entry per probed service, holding either
//! the service's answer or the error it gave.
use crate::text_map::TextMap;
use vstd::prelude::*;

verus! {

/// What the debug service can be asked.
#[derive(Clone, Copy, Debug, PartialEq, Eq, Structural)]
pub enum DebugCommand {
    Snapshot,
}

/// The outcome of probing one service.
#[derive(Clone, Debug, PartialEq, Eq)]
pub enum DiagnosticEntry<V> {
    Available { value: V },
    Unavailable { error: String },
}

/// The names of the probed services, in the order they are probed.
pub open spec fn probed_services() -> Seq<Seq<char>> {
    seq!["sessions"@, "context"@, "planning_history"@, "jobs"@, "models"@, "frontends"@]
}

/// The names of the probed services, in the order they are probed.
pub fn probed_service_names() -> (r: Vec<&'static str>)
    ensures
        r@.map_values(|s: &'static str| s@) == probed_services(),
{
    let r = vec!["sessions", "context", "planning_history", "jobs", "models", "frontends"];
    assert(r@.map_values(|s: &'static str| s@) =~= probed_services());
    r
}

/// The entries of a snapshot, keyed by service name.
pub struct DiagnosticSnapshot<V> {
    pub services: TextMap<DiagnosticEntry<V>>,
}

impl<V> DiagnosticSnapshot<V> {
    pub fn new() -> (r: Self)
        ensures
            r.services.wf(),
            r.services@ == Map::<Seq<char>, DiagnosticEntry<V>>::empty(),
    {
        DiagnosticSnapshot { services: TextMap::new() }
    }

    /// Records what probing a service gave: its answer, or its error.
    pub fn record_probe(&mut self, name: &str, outcome: Result<V, String>)
        requires
            old(self).services.wf(),
        ensures
            final(self).services.wf(),
            final(self).services@ == old(self).services@.insert(
                name@,
                match outcome {
                    Ok(value) => DiagnosticEntry::Available { value },
                    Err(error) => DiagnosticEntry::Unavailable { error },
                },
            ),
    {
        let entry = match outcome {
            Ok(value) => DiagnosticEntry::Available { value },
            Err(error) => DiagnosticEntry::Unavailable { error },
        };
        self.services.insert(String::from_str(name), entry);
    }
}

} // verus!
