//! Audit events for security and operational visibility, kept in a ring of the last 256.

use vstd::prelude::*;
use crate::obs::ring::Ring;
use crate::util::format::{ascii, dec_digits, push_str, push_dec};

verus! {

/// An audited event.
#[derive(Clone, Copy, Debug)]
pub enum AuditKind {
    BootStart,
    BootReady,
    VmCreate(u64),
    VmStart(u64),
    VmStop(u64),
    VmDestroy(u64),
    IommuDomainCreate(u16),
    IommuAssignAdded { seg: u16, bus: u8, dev: u8, func: u8, dom: u16 },
    IommuAssignRemoved { seg: u16, bus: u8, dev: u8, func: u8, dom: u16 },
}

/// Number of audit events kept.
pub const AUDIT_CAP: usize = 256;

/// The audit ring.
pub type AuditRing = Ring<AuditKind>;

/// An empty audit ring.
pub fn new_audit() -> (r: AuditRing)
    ensures
        r.wf(),
        r.cap() == AUDIT_CAP,
        r.hist@ == Seq::<AuditKind>::empty(),
{
    Ring::new(AUDIT_CAP, AuditKind::BootStart)
}

/// Append an audit event.
pub fn record(ring: &mut AuditRing, event: AuditKind)
    requires
        old(ring).wf(),
        old(ring).count() < usize::MAX,
    ensures
        final(ring).wf(),
        final(ring).cap() == old(ring).cap(),
        final(ring).hist@ == old(ring).hist@.push(event),
{
    ring.record(event);
}

/// A device as `seg:bus:dev.func` in decimal.
pub open spec fn bdf_text(seg: u16, bus: u8, dev: u8, func: u8) -> Seq<u8> {
    dec_digits(seg as nat) + seq![58u8] + dec_digits(bus as nat) + seq![58u8] + dec_digits(dev as nat) + seq![46u8] + dec_digits(func as nat)
}

/// An audit event's line, CR LF.
pub open spec fn audit_line(e: AuditKind) -> Seq<u8> {
    (match e {
        AuditKind::BootStart => ascii("audit: boot_start"@),
        AuditKind::BootReady => ascii("audit: boot_ready"@),
        AuditKind::VmCreate(id) => ascii("audit: vm_create id="@) + dec_digits((id as u32) as nat),
        AuditKind::VmStart(id) => ascii("audit: vm_start id="@) + dec_digits((id as u32) as nat),
        AuditKind::VmStop(id) => ascii("audit: vm_stop id="@) + dec_digits((id as u32) as nat),
        AuditKind::VmDestroy(id) => ascii("audit: vm_destroy id="@) + dec_digits((id as u32) as nat),
        AuditKind::IommuDomainCreate(dom) => ascii("audit: iommu_domain_create id="@) + dec_digits(dom as nat),
        AuditKind::IommuAssignAdded { seg, bus, dev, func, dom } => ascii("audit: iommu_assign_add bdf="@)
            + bdf_text(seg, bus, dev, func) + ascii(" dom="@) + dec_digits(dom as nat),
        AuditKind::IommuAssignRemoved { seg, bus, dev, func, dom } => ascii("audit: iommu_assign_del bdf="@)
            + bdf_text(seg, bus, dev, func) + ascii(" dom="@) + dec_digits(dom as nat),
    }) + seq![13u8, 10u8]
}

fn push_bdf(out: &mut Vec<u8>, seg: u16, bus: u8, dev: u8, func: u8)
    ensures
        final(out)@ == old(out)@ + bdf_text(seg, bus, dev, func),
{
    push_dec(out, seg as u32);
    out.push(58);
    push_dec(out, bus as u32);
    out.push(58);
    push_dec(out, dev as u32);
    out.push(46);
    push_dec(out, func as u32);
    assert(out@ =~= old(out)@ + bdf_text(seg, bus, dev, func));
}

pub fn audit_line_of(e: AuditKind) -> (r: Vec<u8>)
    ensures
        r@ == audit_line(e),
{
    let mut out: Vec<u8> = Vec::new();
    match e {
        AuditKind::BootStart => push_str(&mut out, "audit: boot_start"),
        AuditKind::BootReady => push_str(&mut out, "audit: boot_ready"),
        AuditKind::VmCreate(id) => { push_str(&mut out, "audit: vm_create id="); push_dec(&mut out, id as u32); },
        AuditKind::VmStart(id) => { push_str(&mut out, "audit: vm_start id="); push_dec(&mut out, id as u32); },
        AuditKind::VmStop(id) => { push_str(&mut out, "audit: vm_stop id="); push_dec(&mut out, id as u32); },
        AuditKind::VmDestroy(id) => { push_str(&mut out, "audit: vm_destroy id="); push_dec(&mut out, id as u32); },
        AuditKind::IommuDomainCreate(dom) => { push_str(&mut out, "audit: iommu_domain_create id="); push_dec(&mut out, dom as u32); },
        AuditKind::IommuAssignAdded { seg, bus, dev, func, dom } => {
            push_str(&mut out, "audit: iommu_assign_add bdf=");
            push_bdf(&mut out, seg, bus, dev, func);
            push_str(&mut out, " dom=");
            push_dec(&mut out, dom as u32);
        },
        AuditKind::IommuAssignRemoved { seg, bus, dev, func, dom } => {
            push_str(&mut out, "audit: iommu_assign_del bdf=");
            push_bdf(&mut out, seg, bus, dev, func);
            push_str(&mut out, " dom=");
            push_dec(&mut out, dom as u32);
        },
    }
    out.push(13);
    out.push(10);
    assert(out@ =~= audit_line(e));
    out
}

/// The retained audit events' lines, oldest first.
pub fn dump(ring: &AuditRing) -> (r: Vec<Vec<u8>>)
    requires
        ring.wf(),
    ensures
        r@.len() == ring.retained().len(),
        forall|k: int| #![trigger r@[k]] 0 <= k < r@.len() ==> r@[k]@ == audit_line(ring.retained()[k]),
{
    let evs = ring.recent();
    let mut out: Vec<Vec<u8>> = Vec::new();
    let mut i: usize = 0;
    while i < evs.len()
        invariant
            i <= evs@.len(),
            evs@ == ring.retained(),
            out@.len() == i,
            forall|k: int| #![trigger out@[k]] 0 <= k < i ==> out@[k]@ == audit_line(evs@[k]),
        decreases evs@.len() - i,
    {
        out.push(audit_line_of(evs[i]));
        i = i + 1;
    }
    out
}

} // verus!
