//! Virtual machines: creation with their nested identity map, the lifecycle
//! events they record, and the registry used by the control plane.

use vstd::prelude::*;
use crate::obs::Obs;
use crate::obs::trace::Event;
use crate::diag::audit::AuditKind;
use crate::arch::x86::cpuid::{CpuidResult, bit_set};
use crate::arch::x86::vm::Vendor;
use crate::arch::x86::vm::svm::svm_preflight_available;
use crate::arch::x86::vm::vmx::vmx_preflight_available;
use crate::mm::pages::{PhysPages, translate};
use crate::mm::identity::{LeafSize, layout, layout_ok, layout_pages};
use crate::mm::pages::{PAGE_BYTES, PHYS_LIMIT, SPAN_512G};
use crate::mm::ept::{EptCaps, build_identity_best, leaf_flags_for, table_pages};
use crate::mm::npt::{NPT_DIR_FLAGS, NPT_LEAF_FLAGS};

verus! {

/// A VM identifier.
#[derive(Clone, Copy, Debug)]
pub struct VmId(pub u64);

/// Requested VM shape.
#[derive(Debug)]
pub struct VmConfig {
    pub memory_bytes: u64,
    pub vcpu_count: u32,
}

/// Virtualization flavour of a VM.
#[derive(Debug, Clone, Copy, PartialEq, Eq, Structural)]
pub enum HvVendor {
    Intel,
    Amd,
    Unknown,
}

/// A virtual machine and the root of its nested page tables (0 when none were built).
#[derive(Debug)]
pub struct Vm {
    pub id: VmId,
    pub config: VmConfig,
    pub vendor: HvVendor,
    pub pml4_phys: u64,
}

/// Allocator of VM identifiers, counting up from 1 (wrapping).
pub struct VmIdAllocator {
    pub next: u64,
}

impl VmIdAllocator {
    pub fn new() -> (a: VmIdAllocator)
        ensures
            a.next == 1,
    {
        VmIdAllocator { next: 1 }
    }
}

/// One gibibyte: the memory assumed when a configuration asks for none.
pub const ONE_GIB: u64 = 0x4000_0000;

/// Identity-map size for a VM: its memory, and at least 1 GiB.
pub open spec fn map_limit(memory_bytes: u64) -> u64 {
    if memory_bytes < ONE_GIB { ONE_GIB } else { memory_bytes }
}

pub open spec fn vendor_of(v: Vendor) -> HvVendor {
    match v {
        Vendor::Intel => HvVendor::Intel,
        Vendor::Amd => HvVendor::Amd,
        Vendor::Unknown => HvVendor::Unknown,
    }
}

/// EPT capabilities assumed at VM creation: both large page sizes.
pub open spec fn create_caps() -> EptCaps {
    EptCaps { large_page_2m: true, large_page_1g: true }
}

/// What creating VM `id` records, from allocator value `n0` and observation
/// state `o0` to `n1` and `o1`: the id is the allocator's value, which
/// advances (wrapping); the creation is counted, traced and audited once.
pub open spec fn creation_recorded(n0: u64, o0: Obs, n1: u64, o1: Obs, id: u64) -> bool {
    &&& id == n0
    &&& n1 == vstd::wrapping::u64_specs::wrapping_add(n0, 1)
    &&& o1.metrics.vm_created.value == vstd::wrapping::u64_specs::wrapping_add(o0.metrics.vm_created.value, 1)
    &&& o1.trace.hist@ == o0.trace.hist@.push(Event::VmCreate(id))
    &&& o1.audit.hist@ == o0.audit.hist@.push(AuditKind::VmCreate(id))
}

/// Two VM creations in a row, while fewer than `u64::MAX` VMs were created
/// (the allocator counts up from 1 and has not wrapped): the ids are at least
/// 1 and the second is the first plus one; each call counts one creation and
/// appends one trace and one audit record carrying its own id.
pub proof fn law_consecutive_creations(n0: u64, o0: Obs, n1: u64, o1: Obs, id1: u64, n2: u64, o2: Obs, id2: u64)
    requires
        1 <= n0 < u64::MAX,
        creation_recorded(n0, o0, n1, o1, id1),
        creation_recorded(n1, o1, n2, o2, id2),
        o0.metrics.vm_created.value < u64::MAX - 1,
    ensures
        id1 >= 1,
        id2 == id1 + 1,
        o2.metrics.vm_created.value == o0.metrics.vm_created.value + 2,
        o2.trace.hist@ == o0.trace.hist@.push(Event::VmCreate(id1)).push(Event::VmCreate(id2)),
        o2.audit.hist@ == o0.audit.hist@.push(AuditKind::VmCreate(id1)).push(AuditKind::VmCreate(id2)),
{
}

/// Whether table pages at `base` can hold the nested map a VM of `vendor` needs.
pub open spec fn tables_fit(vendor: HvVendor, base: u64, limit: u64) -> bool {
    match vendor {
        HvVendor::Intel => layout_ok(LeafSize::Huge1G, base, limit),
        HvVendor::Amd => layout_ok(LeafSize::Large2M, base, limit),
        HvVendor::Unknown => true,
    }
}

/// What starting a VM does next on this CPU.
#[derive(Debug, Clone, Copy, PartialEq, Eq, Structural)]
pub enum StartAction {
    /// Run the VMXON and EPT smoke tests.
    VmxSmokeTests,
    /// Check SVM and prepare nested page tables of `limit_bytes`.
    SvmPrepareNpt { limit_bytes: u64 },
    /// Nothing to run.
    Nothing,
}

/// The leaf size of the nested map a VM of `vendor` gets.
pub open spec fn vm_leaf(vendor: HvVendor) -> Option<LeafSize> {
    match vendor {
        HvVendor::Intel => Some(LeafSize::Huge1G),
        HvVendor::Amd => Some(LeafSize::Large2M),
        HvVendor::Unknown => None,
    }
}

/// Table pages to set aside for the nested map of a VM of `memory_bytes` on
/// `cpu`; `None` on an unknown vendor or beyond what one top-level table maps.
pub fn vm_table_need(cpu: Vendor, memory_bytes: u64) -> (r: Option<u64>)
    ensures
        r == match vm_leaf(vendor_of(cpu)) {
            Some(size) => if map_limit(memory_bytes) <= SPAN_512G {
                Some(layout_pages(size, map_limit(memory_bytes)) as u64)
            } else {
                None
            },
            None => None,
        },
{
    let limit = if memory_bytes < ONE_GIB { ONE_GIB } else { memory_bytes };
    if limit > SPAN_512G {
        return None;
    }
    match cpu {
        Vendor::Intel => Some(table_pages(&LeafSize::Huge1G, limit)),
        Vendor::Amd => Some(table_pages(&LeafSize::Large2M, limit)),
        Vendor::Unknown => None,
    }
}

/// Whether table pages at `base` suit the nested map of a VM of
/// `memory_bytes` on `cpu` (the condition [`Vm::create`] asks of them).
pub fn vm_tables_fit(cpu: Vendor, memory_bytes: u64, base: u64) -> (r: bool)
    ensures
        r == tables_fit(vendor_of(cpu), base, map_limit(memory_bytes)),
{
    let limit = if memory_bytes < ONE_GIB { ONE_GIB } else { memory_bytes };
    if limit > SPAN_512G || base % PAGE_BYTES != 0 {
        return match cpu { Vendor::Unknown => true, _ => false };
    }
    let pages = match cpu {
        Vendor::Intel => table_pages(&LeafSize::Huge1G, limit),
        Vendor::Amd => table_pages(&LeafSize::Large2M, limit),
        Vendor::Unknown => return true,
    };
    if pages > (PHYS_LIMIT / 4096) {
        return false;
    }
    base <= PHYS_LIMIT - pages * 4096
}

impl Vm {
    /// Create a VM: take the next identifier, count, trace and audit the
    /// creation, and build its nested identity map of `map_limit` bytes in the
    /// table pages at `table_base` (EPT with 1 GiB pages on Intel, NPT with
    /// 2 MiB pages on AMD, none otherwise). Without table pages, or on an
    /// unknown vendor, the VM has no tables and `pml4_phys` is 0.
    pub fn create(ids: &mut VmIdAllocator, obs: &mut Obs, config: VmConfig, cpu: Vendor, table_base: Option<u64>)
        -> (r: (Vm, Option<PhysPages>))
        requires
            old(obs).wf(),
            old(obs).room(1),
            table_base matches Some(b) ==> tables_fit(vendor_of(cpu), b, map_limit(config.memory_bytes)),
        ensures
            r.0.id.0 == old(ids).next,
            final(ids).next == vstd::wrapping::u64_specs::wrapping_add(old(ids).next, 1),
            r.0.config == config,
            r.0.vendor == vendor_of(cpu),
            final(obs).wf(),
            final(obs).metrics.vm_created.value
                == vstd::wrapping::u64_specs::wrapping_add(old(obs).metrics.vm_created.value, 1),
            final(obs).trace.hist@ == old(obs).trace.hist@.push(Event::VmCreate(old(ids).next)),
            final(obs).audit.hist@ == old(obs).audit.hist@.push(AuditKind::VmCreate(old(ids).next)),
            creation_recorded(old(ids).next, *old(obs), final(ids).next, *final(obs), r.0.id.0),
            ({
                let limit = map_limit(config.memory_bytes);
                match (table_base, vendor_of(cpu)) {
                    (Some(b), HvVendor::Intel) => r.1 matches Some(m) && r.0.pml4_phys == b && m.base == b && m.wf()
                        && m.words@ == layout(LeafSize::Huge1G, b, limit, 7, leaf_flags_for(LeafSize::Huge1G, true))
                        && forall|a: u64| a < limit ==> translate(m, b, a) == Some(a),
                    (Some(b), HvVendor::Amd) => r.1 matches Some(m) && r.0.pml4_phys == b && m.base == b && m.wf()
                        && m.words@ == layout(LeafSize::Large2M, b, limit, NPT_DIR_FLAGS, NPT_LEAF_FLAGS)
                        && forall|a: u64| a < limit ==> translate(m, b, a) == Some(a),
                    _ => r.1 is None && r.0.pml4_phys == 0,
                }
            }),
    {
        let id = VmId(ids.next);
        ids.next = ids.next.wrapping_add(1);
        obs.metrics.vm_created.inc();
        obs.trace.record(Event::VmCreate(id.0));
        obs.audit.record(AuditKind::VmCreate(id.0));
        let vendor = match cpu {
            Vendor::Intel => HvVendor::Intel,
            Vendor::Amd => HvVendor::Amd,
            Vendor::Unknown => HvVendor::Unknown,
        };
        let limit = if config.memory_bytes < ONE_GIB { ONE_GIB } else { config.memory_bytes };
        let tables: Option<PhysPages> = match table_base {
            None => None,
            Some(b) => match vendor {
                HvVendor::Intel => {
                    let caps = EptCaps { large_page_2m: true, large_page_1g: true };
                    build_identity_best(b, limit, caps)
                },
                HvVendor::Amd => crate::mm::npt::build_identity_2m(b, limit),
                HvVendor::Unknown => None,
            },
        };
        let pml4_phys = match &tables {
            Some(m) => m.base,
            None => 0,
        };
        (Vm { id, config, vendor, pml4_phys }, tables)
    }

    /// Start a VM: count, trace and audit the start, then decide the smoke
    /// tests for its vendor from CPUID leaf 1 (`leaf1`) and leaf 0x80000001 (`ext`).
    pub fn start(&self, obs: &mut Obs, leaf1: CpuidResult, ext: CpuidResult) -> (act: StartAction)
        requires
            old(obs).wf(),
            old(obs).room(1),
        ensures
            final(obs).wf(),
            final(obs).metrics.vm_started.value
                == vstd::wrapping::u64_specs::wrapping_add(old(obs).metrics.vm_started.value, 1),
            final(obs).trace.hist@ == old(obs).trace.hist@.push(Event::VmStart(self.id.0)),
            final(obs).audit.hist@ == old(obs).audit.hist@.push(AuditKind::VmStart(self.id.0)),
            act == match self.vendor {
                HvVendor::Intel => if bit_set(leaf1.ecx, 5) { StartAction::VmxSmokeTests } else { StartAction::Nothing },
                HvVendor::Amd => if bit_set(ext.ecx, 2) {
                    StartAction::SvmPrepareNpt {
                        limit_bytes: if self.config.memory_bytes > ONE_GIB { self.config.memory_bytes } else { ONE_GIB },
                    }
                } else {
                    StartAction::Nothing
                },
                HvVendor::Unknown => StartAction::Nothing,
            },
    {
        obs.metrics.vm_started.inc();
        obs.trace.record(Event::VmStart(self.id.0));
        obs.audit.record(AuditKind::VmStart(self.id.0));
        match self.vendor {
            HvVendor::Intel => {
                if vmx_preflight_available(leaf1) { StartAction::VmxSmokeTests } else { StartAction::Nothing }
            },
            HvVendor::Amd => {
                if svm_preflight_available(ext) {
                    let m = self.config.memory_bytes;
                    StartAction::SvmPrepareNpt { limit_bytes: if m > ONE_GIB { m } else { ONE_GIB } }
                } else {
                    StartAction::Nothing
                }
            },
            HvVendor::Unknown => StartAction::Nothing,
        }
    }

    /// Stopping a VM does nothing yet.
    pub fn stop(&self) {
    }

    /// Destroy a VM: trace its stop and destruction, and audit both.
    pub fn destroy(self, obs: &mut Obs)
        requires
            old(obs).wf(),
            old(obs).room(2),
        ensures
            final(obs).wf(),
            final(obs).metrics == old(obs).metrics,
            final(obs).trace.hist@ == old(obs).trace.hist@.push(Event::VmStop(self.id.0)).push(Event::VmDestroy(self.id.0)),
            final(obs).audit.hist@ == old(obs).audit.hist@.push(AuditKind::VmStop(self.id.0)).push(AuditKind::VmDestroy(self.id.0)),
    {
        obs.trace.record(Event::VmStop(self.id.0));
        obs.trace.record(Event::VmDestroy(self.id.0));
        obs.audit.record(AuditKind::VmStop(self.id.0));
        obs.audit.record(AuditKind::VmDestroy(self.id.0));
    }

    /// Pausing traces a stop.
    pub fn pause(&self, obs: &mut Obs)
        requires
            old(obs).wf(),
            old(obs).room(1),
        ensures
            final(obs).wf(),
            final(obs).metrics == old(obs).metrics,
            final(obs).audit == old(obs).audit,
            final(obs).trace.hist@ == old(obs).trace.hist@.push(Event::VmStop(self.id.0)),
    {
        obs.trace.record(Event::VmStop(self.id.0));
    }

    /// Resuming traces a start.
    pub fn resume(&self, obs: &mut Obs)
        requires
            old(obs).wf(),
            old(obs).room(1),
        ensures
            final(obs).wf(),
            final(obs).metrics == old(obs).metrics,
            final(obs).audit == old(obs).audit,
            final(obs).trace.hist@ == old(obs).trace.hist@.push(Event::VmStart(self.id.0)),
    {
        obs.trace.record(Event::VmStart(self.id.0));
    }
}

/// Snapshot of a registered VM.
#[derive(Clone, Copy, Debug)]
pub struct VmInfo {
    pub id: u64,
    pub vendor: HvVendor,
    pub pml4_phys: u64,
    pub memory_bytes: u64,
}

/// Registry capacity.
pub const VM_REG_CAP: usize = 16;

/// The VMs registered for control-plane lookup, in registration order.
pub struct VmRegistry {
    pub infos: Vec<VmInfo>,
}

/// The snapshot registered for `vm`: memory reported as at least 1 GiB.
pub open spec fn info_of(vm: Vm) -> VmInfo {
    VmInfo {
        id: vm.id.0,
        vendor: vm.vendor,
        pml4_phys: vm.pml4_phys,
        memory_bytes: if vm.config.memory_bytes > ONE_GIB { vm.config.memory_bytes } else { ONE_GIB },
    }
}

impl VmRegistry {
    pub open spec fn wf(&self) -> bool {
        self.infos@.len() <= VM_REG_CAP
    }

    pub fn new() -> (r: VmRegistry)
        ensures
            r.wf(),
            r.infos@ == Seq::<VmInfo>::empty(),
    {
        VmRegistry { infos: Vec::new() }
    }
}

/// Register `vm`. `false`, with the registry unchanged, when it is full.
pub fn register_vm(reg: &mut VmRegistry, vm: &Vm) -> (ok: bool)
    requires
        old(reg).wf(),
    ensures
        final(reg).wf(),
        ok == (old(reg).infos@.len() < VM_REG_CAP),
        ok ==> final(reg).infos@ == old(reg).infos@.push(info_of(*vm)),
        !ok ==> final(reg).infos@ == old(reg).infos@,
{
    if reg.infos.len() >= VM_REG_CAP {
        return false;
    }
    let m = vm.config.memory_bytes;
    let info = VmInfo {
        id: vm.id.0,
        vendor: vm.vendor,
        pml4_phys: vm.pml4_phys,
        memory_bytes: if m > ONE_GIB { m } else { ONE_GIB },
    };
    reg.infos.push(info);
    true
}

/// The first registered VM with identifier `id`.
pub fn find_vm(reg: &VmRegistry, id: u64) -> (r: Option<VmInfo>)
    ensures
        r matches Some(info) ==> exists|i: int| 0 <= i < reg.infos@.len() && reg.infos@[i] == info
            && info.id == id && forall|j: int| 0 <= j < i ==> reg.infos@[j].id != id,
        r is None <==> forall|i: int| 0 <= i < reg.infos@.len() ==> reg.infos@[i].id != id,
{
    let mut i: usize = 0;
    while i < reg.infos.len()
        invariant
            i <= reg.infos@.len(),
            forall|j: int| 0 <= j < i ==> reg.infos@[j].id != id,
        decreases reg.infos@.len() - i,
    {
        if reg.infos[i].id == id {
            return Some(reg.infos[i]);
        }
        i = i + 1;
    }
    None
}

/// The registered VMs, in registration order, leaving out identifier 0.
pub fn list_vms(reg: &VmRegistry) -> (r: Vec<VmInfo>)
    ensures
        r@ == reg.infos@.filter(|v: VmInfo| v.id != 0),
{
    let mut out: Vec<VmInfo> = Vec::new();
    let mut i: usize = 0;
    while i < reg.infos.len()
        invariant
            i <= reg.infos@.len(),
            out@ == reg.infos@.subrange(0, i as int).filter(|v: VmInfo| v.id != 0),
        decreases reg.infos@.len() - i,
    {
        let ghost pre = reg.infos@.subrange(0, i as int);
        let v = reg.infos[i];
        if v.id != 0 {
            out.push(v);
        }
        proof {
            assert(reg.infos@.subrange(0, i + 1) =~= pre.push(v));
            pre.lemma_filter_push(v, |x: VmInfo| x.id != 0);
        }
        i = i + 1;
    }
    assert(reg.infos@.subrange(0, reg.infos@.len() as int) =~= reg.infos@);
    out
}

} // verus!
