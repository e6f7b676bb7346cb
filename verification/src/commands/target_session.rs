//! The Session a command is aimed at.

use vstd::prelude::*;

use crate::cli::TargetSelector;
use crate::record::{opt_view, SessionRecord, SessionRecordView};
use crate::session::{resolve_spec, SessionRegistry};
use crate::session_io::SessionIo;

verus! {

/// The record of the targeted Session.
pub struct TargetSession {
    record: SessionRecord,
}

impl View for TargetSession {
    type V = SessionRecordView;

    closed spec fn view(&self) -> SessionRecordView {
        self.record@
    }
}

impl TargetSession {
    /// The Session that `selector` picks among the registry's active records.
    pub fn resolve(registry: &SessionRegistry, selector: &TargetSelector) -> (r: Result<Self, String>)
        ensures
            match resolve_spec(registry@.records, opt_view(selector.session), opt_view(selector.name)) {
                Ok(rec) => r matches Ok(t) && t@ == rec,
                Err(m) => r matches Err(e) && e@ == m,
            },
    {
        match registry.resolve_target(selector) {
            Ok(record) => Ok(TargetSession { record }),
            Err(e) => Err(e),
        }
    }

    /// The targeted Session's record.
    pub fn record(&self) -> (r: &SessionRecord)
        ensures
            r@ == self@,
    {
        &self.record
    }

    /// The targeted Session's file layout.
    pub fn io(&self) -> (io: SessionIo)
        ensures
            io@.id == self@.id,
            io@.artifact_dir == self@.artifact_dir,
    {
        SessionIo::for_record(&self.record)
    }
}

} // verus!
