# zerovisor

Zerovisor is the core of a small type-1 hypervisor that boots from UEFI on
x86-64. This crate holds its logic as a Verus library: every function in
`src/` carries a `requires`/`ensures` contract that Verus proves, and the
firmware glue that talks to the machine lives in `app/`.

## Layout

- `src/` — the verified library.
  - `mm/` — page allocation, identity maps, EPT and NPT table building and
    walking, with read-back laws for what a mapping makes translate.
  - `iommu/` — the domain/assignment/mapping registry, VT-d root and
    context tables, second-level page tables, invalidation plans, the
    persisted form of assignments and their restoring, and the counters and
    trace events all of these produce.
  - `migrate/` — dirty tracking, pre-copy rounds, the `ZMIG` frame format
    (header, run-length payloads, CRC-32), channel buffers, control frames
    (ACK/NAK) and the replies they call for, verification and replay of
    received frames, resends, and the migration counters.
  - `firmware/acpi.rs` — RSDP/XSDT walking, MADT, DMAR and IVRS parsing.
  - `arch/x86/` — CPUID decoding, IDT and LAPIC encodings, VMX/SVM
    capability rules, VMCS field tables and the AP start-up trampoline.
  - `hv/` — VM and vCPU records and the limits they are created with.
  - `virtio/` — PCI capability walking and virtio-blk window decoding.
  - `ctl/` — the console line editor and the command parser.
  - `obs/`, `diag/`, `i18n/`, `time/`, `util/` — metrics, trace ring,
    audit log, message catalogue, HPET arithmetic, formatting and CRC-32.
  - `boot/` — the memory map and the PE entry-point reader of the loader.
- `tests/` — ordinary Rust tests that run the library on concrete values.
- `app/` — the UEFI entry point: console I/O, port and MMIO access, page
  allocation from firmware, the command loop and the SMP bring-up. It hands
  plain values to the library and performs the steps it returns.
