//! Trace events, kept in a ring of the last 64.

use vstd::prelude::*;
use crate::obs::ring::Ring;
use crate::util::format::{ascii, dec_digits, push_str, push_dec};

verus! {

/// A traced hypervisor event.
#[derive(Clone, Copy, Debug)]
pub enum Event {
    VmCreate(u64),
    VmStart(u64),
    VmStop(u64),
    VmDestroy(u64),
    IommuInvalidateAll(u16),
    IommuInvalidateDomain(u16),
    IommuInvalidateBdf(u16, u8, u8, u8),
    IommuMapAdded(u16),
    IommuMapRemoved(u16),
}

/// Number of trace events kept.
pub const TRACE_CAP: usize = 64;

/// The trace ring.
pub type TraceRing = Ring<Event>;

/// An empty trace ring.
pub fn new_trace() -> (r: TraceRing)
    ensures
        r.wf(),
        r.cap() == TRACE_CAP,
        r.hist@ == Seq::<Event>::empty(),
{
    Ring::new(TRACE_CAP, Event::VmCreate(0))
}

/// Record a trace event.
pub fn emit(ring: &mut TraceRing, e: Event)
    requires
        old(ring).wf(),
        old(ring).count() < usize::MAX,
    ensures
        final(ring).wf(),
        final(ring).cap() == old(ring).cap(),
        final(ring).hist@ == old(ring).hist@.push(e),
{
    ring.record(e);
}

/// Forget every trace event.
pub fn clear(ring: &mut TraceRing)
    ensures
        final(ring).wf(),
        final(ring).cap() == TRACE_CAP,
        final(ring).hist@ == Seq::<Event>::empty(),
{
    *ring = new_trace();
}

/// An event's line: its name and numbers (low 32 bits, decimal), CR LF.
pub open spec fn event_line(e: Event) -> Seq<u8> {
    (match e {
        Event::VmCreate(id) => ascii("trace: vm_create id="@) + dec_digits((id as u32) as nat),
        Event::VmStart(id) => ascii("trace: vm_start id="@) + dec_digits((id as u32) as nat),
        Event::VmStop(id) => ascii("trace: vm_stop id="@) + dec_digits((id as u32) as nat),
        Event::VmDestroy(id) => ascii("trace: vm_destroy id="@) + dec_digits((id as u32) as nat),
        Event::IommuInvalidateAll(seg) => ascii("trace: vtd_inval_all seg="@) + dec_digits(seg as nat),
        Event::IommuInvalidateDomain(dom) => ascii("trace: vtd_inval_dom id="@) + dec_digits(dom as nat),
        Event::IommuInvalidateBdf(seg, bus, dev, func) => ascii("trace: vtd_inval_bdf "@) + dec_digits(seg as nat)
            + seq![58u8] + dec_digits(bus as nat) + seq![58u8] + dec_digits(dev as nat) + seq![46u8] + dec_digits(func as nat),
        Event::IommuMapAdded(dom) => ascii("trace: vtd_map_add dom="@) + dec_digits(dom as nat),
        Event::IommuMapRemoved(dom) => ascii("trace: vtd_map_del dom="@) + dec_digits(dom as nat),
    }) + seq![13u8, 10u8]
}

pub fn event_line_of(e: Event) -> (r: Vec<u8>)
    ensures
        r@ == event_line(e),
{
    let mut out: Vec<u8> = Vec::new();
    match e {
        Event::VmCreate(id) => { push_str(&mut out, "trace: vm_create id="); push_dec(&mut out, id as u32); },
        Event::VmStart(id) => { push_str(&mut out, "trace: vm_start id="); push_dec(&mut out, id as u32); },
        Event::VmStop(id) => { push_str(&mut out, "trace: vm_stop id="); push_dec(&mut out, id as u32); },
        Event::VmDestroy(id) => { push_str(&mut out, "trace: vm_destroy id="); push_dec(&mut out, id as u32); },
        Event::IommuInvalidateAll(seg) => { push_str(&mut out, "trace: vtd_inval_all seg="); push_dec(&mut out, seg as u32); },
        Event::IommuInvalidateDomain(dom) => { push_str(&mut out, "trace: vtd_inval_dom id="); push_dec(&mut out, dom as u32); },
        Event::IommuInvalidateBdf(seg, bus, dev, func) => {
            push_str(&mut out, "trace: vtd_inval_bdf ");
            push_dec(&mut out, seg as u32);
            out.push(58);
            push_dec(&mut out, bus as u32);
            out.push(58);
            push_dec(&mut out, dev as u32);
            out.push(46);
            push_dec(&mut out, func as u32);
        },
        Event::IommuMapAdded(dom) => { push_str(&mut out, "trace: vtd_map_add dom="); push_dec(&mut out, dom as u32); },
        Event::IommuMapRemoved(dom) => { push_str(&mut out, "trace: vtd_map_del dom="); push_dec(&mut out, dom as u32); },
    }
    out.push(13);
    out.push(10);
    assert(out@ =~= event_line(e));
    out
}

/// The retained events' lines, oldest first.
pub fn dump(ring: &TraceRing) -> (r: Vec<Vec<u8>>)
    requires
        ring.wf(),
    ensures
        r@.len() == ring.retained().len(),
        forall|k: int| #![trigger r@[k]] 0 <= k < r@.len() ==> r@[k]@ == event_line(ring.retained()[k]),
{
    let evs = ring.recent();
    let mut out: Vec<Vec<u8>> = Vec::new();
    let mut i: usize = 0;
    while i < evs.len()
        invariant
            i <= evs@.len(),
            evs@ == ring.retained(),
            out@.len() == i,
            forall|k: int| #![trigger out@[k]] 0 <= k < i ==> out@[k]@ == event_line(evs@[k]),
        decreases evs@.len() - i,
    {
        out.push(event_line_of(evs[i]));
        i = i + 1;
    }
    out
}

} // verus!
