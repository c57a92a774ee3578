//! The real-mode trampoline page that application processors start in after a
//! startup IPI, and the page tables they later run on.

use vstd::prelude::*;
use crate::util::bytes::le32;
use crate::mm::pages::{PhysPages, translate};
use crate::mm::identity::{LeafSize, layout, layout_ok};
use crate::mm::paging::{build_identity_2m, PT_DIR_FLAGS, PT_LEAF_FLAGS};

verus! {

/// Where the prepared trampoline lives and how to start it.
#[derive(Clone, Copy, Debug)]
pub struct TrampolineInfo {
    pub phys_base: u64,
    pub vector: u8,
    pub mailbox_offset: u16,
}

/// Offset of the 16-bit start counter in the trampoline page.
pub const MAILBOX_OFF: u16 = 0x0800;
/// Offset of the GDTR (limit, base) in the trampoline page.
pub const GDTR_OFF: u16 = 0x08E0;
/// Offset of the three-entry GDT in the trampoline page.
pub const GDT_OFF: u16 = 0x0900;
/// Offset of the protected-mode entry point: the first byte after the far
/// jump, reached through a code segment based at the page.
pub const PM_ENTRY_OFF: u16 = 0x0019;
/// Length of the bootstrap code.
pub const CODE_LEN: usize = 50;

pub open spec fn lo8(x: u16) -> u8 {
    (x & 0xFF) as u8
}

pub open spec fn hi8(x: u16) -> u8 {
    (x >> 8u16) as u8
}

/// The bootstrap code. In real mode: `cli; push cs; pop ds; lgdt [gdtr];
/// set CR0.PE; jmp 0x08:pm_entry`. Then in 32-bit protected mode:
/// `mov ax,0x10; mov ds/es/ss,ax; mov ebx,mailbox; inc word [ebx];
/// mov byte [ebx+4],1; hlt; jmp $`, with `mailbox` the counter's linear address.
pub open spec fn trampoline_code(mailbox_addr: u32, gdtr_off: u16, pm_entry_off: u16) -> Seq<u8> {
    seq![0xFAu8, 0x0E, 0x1F]
        + seq![0x0Fu8, 0x01, 0x16, lo8(gdtr_off), hi8(gdtr_off)]
        + seq![0x66u8, 0x0F, 0x20, 0xC0]
        + seq![0x66u8, 0x83, 0xC8, 0x01]
        + seq![0x66u8, 0x0F, 0x22, 0xC0]
        + seq![0xEAu8, lo8(pm_entry_off), hi8(pm_entry_off), 0x08, 0x00]
        + seq![0x66u8, 0xB8, 0x10, 0x00]
        + seq![0x8Eu8, 0xD8, 0x8E, 0xC0, 0x8E, 0xD0]
        + seq![0xBBu8] + le32(mailbox_addr)
        + seq![0x66u8, 0xFF, 0x03]
        + seq![0xC6u8, 0x43, 0x04, 0x01]
        + seq![0xF4u8, 0xEB, 0xFE]
}

/// Write the bootstrap code to the front of `out`; returns its length.
pub fn build_pm_trampoline(mailbox_addr: u32, gdtr_off: u16, pm_entry_off: u16, out: &mut [u8]) -> (n: usize)
    requires
        old(out)@.len() >= CODE_LEN,
    ensures
        n == CODE_LEN,
        final(out)@ == trampoline_code(mailbox_addr, gdtr_off, pm_entry_off)
            + old(out)@.subrange(CODE_LEN as int, old(out)@.len() as int),
{
    let code: Vec<u8> = vec![
        0xFA, 0x0E, 0x1F,
        0x0F, 0x01, 0x16, (gdtr_off & 0xFF) as u8, (gdtr_off >> 8u16) as u8,
        0x66, 0x0F, 0x20, 0xC0,
        0x66, 0x83, 0xC8, 0x01,
        0x66, 0x0F, 0x22, 0xC0,
        0xEA, (pm_entry_off & 0xFF) as u8, (pm_entry_off >> 8u16) as u8, 0x08, 0x00,
        0x66, 0xB8, 0x10, 0x00,
        0x8E, 0xD8, 0x8E, 0xC0, 0x8E, 0xD0,
        0xBB, (mailbox_addr & 0xFF) as u8, ((mailbox_addr >> 8u32) & 0xFF) as u8,
        ((mailbox_addr >> 16u32) & 0xFF) as u8, ((mailbox_addr >> 24u32) & 0xFF) as u8,
        0x66, 0xFF, 0x03,
        0xC6, 0x43, 0x04, 0x01,
        0xF4, 0xEB, 0xFE,
    ];
    let ghost want = trampoline_code(mailbox_addr, gdtr_off, pm_entry_off);
    assert(code@ =~= want);
    let mut n: usize = 0;
    while n < CODE_LEN
        invariant
            code@ == want,
            want.len() == CODE_LEN,
            n <= CODE_LEN,
            old(out)@.len() >= CODE_LEN,
            out@.len() == old(out)@.len(),
            forall|j: int| 0 <= j < n ==> out@[j] == want[j],
            forall|j: int| n <= j < out@.len() ==> out@[j] == old(out)@[j],
        decreases CODE_LEN - n,
    {
        out[n] = code[n];
        n = n + 1;
    }
    assert(out@ =~= want + old(out)@.subrange(CODE_LEN as int, old(out)@.len() as int));
    n
}

/// GDTR image: limit 23 (three descriptors) and the 32-bit GDT base.
pub open spec fn gdtr_bytes(gdt_base: u32) -> Seq<u8> {
    seq![23u8, 0u8] + le32(gdt_base)
}

/// GDT image: null descriptor, 32-bit code (access 0x9A) based at
/// `code_base`, flat 32-bit data (access 0x92).
pub open spec fn gdt_bytes(code_base: u32) -> Seq<u8> {
    let b = le32(code_base);
    seq![0u8, 0, 0, 0, 0, 0, 0, 0]
        + seq![0xFFu8, 0xFF, b[0], b[1], b[2], 0x9A, 0xCF, b[3]]
        + seq![0xFFu8, 0xFF, 0, 0, 0, 0x92, 0xCF, 0]
}

/// Where the far jump of a trampoline page lands: the base of its code
/// segment (GDT entry 1) plus the jump's offset.
pub open spec fn far_jump_target(page: Seq<u8>) -> int {
    page[0x90A] + page[0x90B] * 0x100 + page[0x90C] * 0x1_0000 + page[0x90F] * 0x100_0000
        + page[21] + page[22] * 0x100
}

/// The linear address the protected-mode code counts in (the operand of its
/// `mov ebx`).
pub open spec fn mailbox_target(page: Seq<u8>) -> int {
    page[36] + page[37] * 0x100 + page[38] * 0x1_0000 + page[39] * 0x100_0000
}

proof fn lemma_tramp_bytes(phys: u64)
    by (bit_vector)
    requires
        phys < 0x10_0000u64,
    ensures
        ((phys as u32) & 0xFF) as u8 + (((phys as u32) >> 8u32) & 0xFF) as u8 * 0x100
            + (((phys as u32) >> 16u32) & 0xFF) as u8 * 0x1_0000 + (((phys as u32) >> 24u32) & 0xFF) as u8 * 0x100_0000 == phys,
        ((vstd::wrapping::u64_specs::wrapping_add(phys, 0x800u64) as u32) & 0xFF) as u8
            + (((vstd::wrapping::u64_specs::wrapping_add(phys, 0x800u64) as u32) >> 8u32) & 0xFF) as u8 * 0x100
            + (((vstd::wrapping::u64_specs::wrapping_add(phys, 0x800u64) as u32) >> 16u32) & 0xFF) as u8 * 0x1_0000
            + (((vstd::wrapping::u64_specs::wrapping_add(phys, 0x800u64) as u32) >> 24u32) & 0xFF) as u8 * 0x100_0000 == phys + 0x800,
        ((0x19u16 & 0xFF) as u8) == 0x19u8,
        ((0x19u16 >> 8u16) as u8) == 0u8,
{
}

/// The whole trampoline page for a page at physical `phys`: code at offset 0
/// (counting at `phys + 0x800`, its code segment based at `phys`),
/// GDTR at 0x8E0, GDT at 0x900, every other byte (the mailbox among them) zero.
pub open spec fn trampoline_page(phys: u64) -> Seq<u8> {
    let code = trampoline_code(vstd::wrapping::u64_specs::wrapping_add(phys, MAILBOX_OFF as u64) as u32, GDTR_OFF, PM_ENTRY_OFF);
    let gdtr = gdtr_bytes(vstd::wrapping::u64_specs::wrapping_add(phys, GDT_OFF as u64) as u32);
    let gdt = gdt_bytes(phys as u32);
    Seq::new(4096, |i: int|
        if i < CODE_LEN { code[i] }
        else if GDTR_OFF <= i < GDTR_OFF + 6 { gdtr[i - GDTR_OFF] }
        else if GDT_OFF <= i < GDT_OFF + 24 { gdt[i - GDT_OFF] }
        else { 0u8 })
}

/// Build the image of the trampoline page that will be placed at physical
/// `phys`, and the startup vector (page number bits 12..19) that starts it.
pub fn prepare_real_mode_trampoline(phys: u64) -> (r: (Vec<u8>, TrampolineInfo))
    ensures
        r.0@ == trampoline_page(phys),
        r.1.phys_base == phys,
        r.1.vector == ((phys >> 12u64) & 0xFF) as u8,
        r.1.mailbox_offset == MAILBOX_OFF,
        phys < 0x10_0000 ==> far_jump_target(r.0@) == phys + PM_ENTRY_OFF
            && mailbox_target(r.0@) == phys + MAILBOX_OFF
            && r.0@[MAILBOX_OFF as int] == 0 && r.0@[MAILBOX_OFF + 1] == 0,
{
    let mut code = [0u8; 64];
    let mb = phys.wrapping_add(MAILBOX_OFF as u64) as u32;
    let n = build_pm_trampoline(mb, GDTR_OFF, PM_ENTRY_OFF, &mut code);
    let gdt_base = phys.wrapping_add(GDT_OFF as u64) as u32;
    let gdtr: Vec<u8> = vec![23u8, 0u8, (gdt_base & 0xFF) as u8, ((gdt_base >> 8u32) & 0xFF) as u8,
        ((gdt_base >> 16u32) & 0xFF) as u8, ((gdt_base >> 24u32) & 0xFF) as u8];
    let cb = phys as u32;
    let gdt: Vec<u8> = vec![0u8, 0, 0, 0, 0, 0, 0, 0,
        0xFF, 0xFF, (cb & 0xFF) as u8, ((cb >> 8u32) & 0xFF) as u8, ((cb >> 16u32) & 0xFF) as u8, 0x9A, 0xCF,
        ((cb >> 24u32) & 0xFF) as u8,
        0xFF, 0xFF, 0, 0, 0, 0x92, 0xCF, 0];
    let ghost page = trampoline_page(phys);
    proof {
        assert(gdtr@ =~= gdtr_bytes(vstd::wrapping::u64_specs::wrapping_add(phys, GDT_OFF as u64) as u32));
        assert(gdt@ =~= gdt_bytes(phys as u32));
    }
    let mut img: Vec<u8> = Vec::new();
    let mut i: usize = 0;
    while i < 4096
        invariant
            i <= 4096,
            img@.len() == i,
            code@.subrange(0, CODE_LEN as int) == trampoline_code(mb, GDTR_OFF, PM_ENTRY_OFF),
            mb == vstd::wrapping::u64_specs::wrapping_add(phys, MAILBOX_OFF as u64) as u32,
            code@.len() == 64,
            gdtr@ == gdtr_bytes(vstd::wrapping::u64_specs::wrapping_add(phys, GDT_OFF as u64) as u32),
            gdt@ == gdt_bytes(phys as u32),
            page == trampoline_page(phys),
            forall|j: int| 0 <= j < i ==> img@[j] == page[j],
        decreases 4096 - i,
    {
        let b: u8 = if i < CODE_LEN {
            code[i]
        } else if 0x8E0 <= i && i < 0x8E6 {
            gdtr[i - 0x8E0]
        } else if 0x900 <= i && i < 0x918 {
            gdt[i - 0x900]
        } else {
            0
        };
        proof {
            if i < CODE_LEN {
                assert(code@.subrange(0, CODE_LEN as int)[i as int] == code@[i as int]);
            }
        }
        img.push(b);
        i = i + 1;
    }
    assert(img@ =~= page);
    proof {
        if phys < 0x10_0000 {
            lemma_tramp_bytes(phys);
            assert(page[21] == 0x19 && page[22] == 0);
            assert(page[0x90A] == le32(phys as u32)[0]);
            assert(page[36] == le32(mb)[0]);
        }
    }
    let vector = ((phys >> 12u64) & 0xFF) as u8;
    (img, TrampolineInfo { phys_base: phys, vector, mailbox_offset: MAILBOX_OFF })
}

/// Page tables for the application processors' switch to long mode: an
/// identity map of `limit_bytes` with 2 MiB pages in the table pages at `base`.
/// The CR3 value is `base`. `None` when `limit_bytes` is zero.
pub fn build_ap_long_mode_tables(base: u64, limit_bytes: u64) -> (r: Option<PhysPages>)
    requires
        limit_bytes == 0 || layout_ok(LeafSize::Large2M, base, limit_bytes),
    ensures
        limit_bytes == 0 <==> r is None,
        r matches Some(m) ==> {
            &&& m.wf() && m.base == base
            &&& m.words@ == layout(LeafSize::Large2M, base, limit_bytes, PT_DIR_FLAGS, PT_LEAF_FLAGS)
            &&& forall|a: u64| a < limit_bytes ==> translate(m, base, a) == Some(a)
        },
{
    build_identity_2m(base, limit_bytes)
}

} // verus!
