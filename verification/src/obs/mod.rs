//! Observability: counters, the duration histogram, the trace ring and log lines.

pub mod ring;
pub mod metrics;
pub mod trace;
pub mod log;

use vstd::prelude::*;
use crate::obs::metrics::Metrics;
use crate::obs::trace::{TraceRing, TRACE_CAP, new_trace};
use crate::diag::audit::{AuditRing, AUDIT_CAP, new_audit};

verus! {

/// The hypervisor's observable record: counters, trace and audit trail.
pub struct Obs {
    pub metrics: Metrics,
    pub trace: TraceRing,
    pub audit: AuditRing,
}

impl Obs {
    pub open spec fn wf(&self) -> bool {
        &&& self.metrics.wf()
        &&& self.trace.wf() && self.trace.cap() == TRACE_CAP
        &&& self.audit.wf() && self.audit.cap() == AUDIT_CAP
    }

    /// Room for `k` more trace and audit records.
    pub open spec fn room(&self, k: nat) -> bool {
        self.trace.count() + k < usize::MAX && self.audit.count() + k < usize::MAX
    }

    /// Zero counters, empty trace and audit trail.
    pub fn new() -> (o: Obs)
        ensures
            o.wf(),
            o.metrics.is_zero(),
            o.trace.hist@ == Seq::<crate::obs::trace::Event>::empty(),
            o.audit.hist@ == Seq::<crate::diag::audit::AuditKind>::empty(),
    {
        Obs { metrics: Metrics::new(), trace: new_trace(), audit: new_audit() }
    }
}

} // verus!
