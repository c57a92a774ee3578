//! Interrupt descriptor table gates: the 16-byte 64-bit gate descriptor of
//! a handler address.

use vstd::prelude::*;

verus! {

/// A 64-bit IDT gate descriptor.
#[derive(Clone, Copy, Debug, PartialEq, Eq, Structural)]
pub struct IdtEntry {
    pub offset_low: u16,
    pub selector: u16,
    pub ist: u8,
    pub type_attr: u8,
    pub offset_mid: u16,
    pub offset_high: u32,
    pub zero: u32,
}

/// Number of gates.
pub const IDT_ENTRIES: usize = 256;
/// Present, DPL 0, 64-bit interrupt gate.
pub const GATE_INTERRUPT: u8 = 0x8E;

/// An address cut into its bits 15:0, 31:16 and 63:32.
pub fn split_u64(v: u64) -> (r: (u16, u16, u32))
    ensures
        r.0 == v % 0x1_0000,
        r.1 == (v / 0x1_0000) % 0x1_0000,
        r.2 == v / 0x1_0000_0000,
        r.0 + r.1 * 0x1_0000 + r.2 * 0x1_0000_0000 == v,
{
    let low = (v & 0xFFFF) as u16;
    let mid = ((v >> 16u64) & 0xFFFF) as u16;
    let high = (v >> 32u64) as u32;
    assert(v & 0xFFFF == v % 0x1_0000 && (v >> 16u64) & 0xFFFF == (v / 0x1_0000) % 0x1_0000
        && v >> 32u64 == v / 0x1_0000_0000) by (bit_vector);
    assert(v % 0x1_0000 + ((v / 0x1_0000) % 0x1_0000) * 0x1_0000 + (v / 0x1_0000_0000) * 0x1_0000_0000 == v) by (nonlinear_arith);
    (low, mid, high)
}

/// An interrupt descriptor whose entry point is `handler`.
pub fn gate(handler: u64, selector: u16, ist: u8, type_attr: u8) -> (e: IdtEntry)
    ensures
        e.offset_low + e.offset_mid * 0x1_0000 + e.offset_high * 0x1_0000_0000 == handler,
        e.offset_low == handler % 0x1_0000,
        e.offset_mid == (handler / 0x1_0000) % 0x1_0000,
        e.offset_high == handler / 0x1_0000_0000,
        e.selector == selector && e.ist == ist && e.type_attr == type_attr && e.zero == 0,
{
    let (lo, mid, hi) = split_u64(handler);
    IdtEntry { offset_low: lo, selector, ist, type_attr, offset_mid: mid, offset_high: hi, zero: 0 }
}

/// Set gate `idx` of `idt`.
pub fn set_gate(idt: &mut Vec<IdtEntry>, idx: usize, handler: u64, selector: u16, ist: u8, type_attr: u8)
    requires
        idx < old(idt)@.len(),
    ensures
        final(idt)@ == old(idt)@.update(idx as int, IdtEntry {
            offset_low: (handler % 0x1_0000) as u16,
            selector,
            ist,
            type_attr,
            offset_mid: ((handler / 0x1_0000) % 0x1_0000) as u16,
            offset_high: (handler / 0x1_0000_0000) as u32,
            zero: 0,
        }),
{
    let e = gate(handler, selector, ist, type_attr);
    idt.set(idx, e);
}

/// The table that sends every vector to `handler` as an interrupt gate.
pub fn init_table(handler: u64, cs: u16) -> (idt: Vec<IdtEntry>)
    ensures
        idt@.len() == IDT_ENTRIES,
        forall|i: int| 0 <= i < IDT_ENTRIES ==> #[trigger] idt@[i] == (IdtEntry {
            offset_low: (handler % 0x1_0000) as u16,
            selector: cs,
            ist: 0,
            type_attr: GATE_INTERRUPT,
            offset_mid: ((handler / 0x1_0000) % 0x1_0000) as u16,
            offset_high: (handler / 0x1_0000_0000) as u32,
            zero: 0,
        }),
{
    let g = gate(handler, cs, 0, GATE_INTERRUPT);
    let mut idt: Vec<IdtEntry> = Vec::new();
    while idt.len() < IDT_ENTRIES
        invariant
            idt@.len() <= IDT_ENTRIES,
            forall|i: int| 0 <= i < idt@.len() ==> #[trigger] idt@[i] == g,
        decreases IDT_ENTRIES - idt@.len(),
    {
        idt.push(g);
    }
    idt
}

} // verus!
