//! Session control: network and control-plane settings, the channel, the
//! persisted configuration, and starting and stopping dirty tracking.

use vstd::prelude::*;
use crate::obs::metrics::{Metrics, mig_add, mig_bump, MIG_CB_WRITTEN_BYTES, MIG_CFG_LOADS, MIG_CFG_SAVES, MIG_SESSIONS};
use crate::util::bytes::{le16, le32};
use crate::firmware::acpi::{le16_at, le32_at, read_le16, read_le32};
use crate::migrate::chan::{ChanBuffer, chan_new as new_chan};
use crate::migrate::sink::{ExportSink, sink_code, sink_of_code, sink_to_u8, u8_to_sink};
use crate::migrate::session::{MigState, TrackerState, DEFAULT_CHUNK, DEFAULT_MTU, MIN_MTU};
use crate::migrate::dirty::{DirtyBitmap, DirtyTracker, create_tracker_for_vm};
use crate::hv::vm::{Vm, VmId, VmConfig, VmInfo, VmRegistry, find_vm};

verus! {

/// Destination MAC for network sinks.
pub fn net_get_dest_mac(st: &MigState) -> (r: [u8; 6])
    ensures
        r == st.dest_mac,
{
    st.dest_mac
}

pub fn net_set_dest_mac(st: &mut MigState, mac: [u8; 6])
    ensures
        *final(st) == (MigState { dest_mac: mac, ..*old(st) }),
{
    st.dest_mac = mac;
}

/// The MTU in force: 1500 when unset.
pub open spec fn mtu_of(st: &MigState) -> usize {
    if st.mtu == 0 { DEFAULT_MTU } else { st.mtu }
}

pub fn net_get_mtu(st: &MigState) -> (r: usize)
    ensures
        r == mtu_of(st),
{
    if st.mtu == 0 { DEFAULT_MTU } else { st.mtu }
}

/// Set the MTU, raised to at least 576.
pub fn net_set_mtu(st: &mut MigState, mtu: usize)
    ensures
        *final(st) == (MigState { mtu: if mtu < MIN_MTU { MIN_MTU } else { mtu }, ..*old(st) }),
{
    st.mtu = if mtu < MIN_MTU { MIN_MTU } else { mtu };
}

pub fn net_get_ethertype(st: &MigState) -> (r: u16)
    ensures
        r == st.ether_type,
{
    st.ether_type
}

pub fn net_set_ethertype(st: &mut MigState, et: u16)
    ensures
        *final(st) == (MigState { ether_type: et, ..*old(st) }),
{
    st.ether_type = et;
}

pub fn ctrl_get_resend_sink(st: &MigState) -> (r: ExportSink)
    ensures
        r == st.resend_sink,
{
    st.resend_sink
}

pub fn ctrl_set_resend_sink(st: &mut MigState, s: ExportSink)
    ensures
        *final(st) == (MigState { resend_sink: s, ..*old(st) }),
{
    st.resend_sink = s;
}

pub fn ctrl_get_auto_ack(st: &MigState) -> (r: bool)
    ensures
        r == st.auto_ack,
{
    st.auto_ack
}

pub fn ctrl_set_auto_ack(st: &mut MigState, v: bool)
    ensures
        *final(st) == (MigState { auto_ack: v, ..*old(st) }),
{
    st.auto_ack = v;
}

pub fn ctrl_get_auto_nak(st: &MigState) -> (r: bool)
    ensures
        r == st.auto_nak,
{
    st.auto_nak
}

pub fn ctrl_set_auto_nak(st: &mut MigState, v: bool)
    ensures
        *final(st) == (MigState { auto_nak: v, ..*old(st) }),
{
    st.auto_nak = v;
}

pub fn get_default_sink(st: &MigState) -> (r: ExportSink)
    ensures
        r == st.default_sink,
{
    st.default_sink
}

pub fn set_default_sink(st: &mut MigState, s: ExportSink)
    ensures
        *final(st) == (MigState { default_sink: s, ..*old(st) }),
{
    st.default_sink = s;
}

/// Set the chunk size for chunked writes; 0 restores the default 1500.
pub fn set_chunk_size(st: &mut MigState, bytes: usize)
    ensures
        *final(st) == (MigState { chunk: if bytes == 0 { DEFAULT_CHUNK } else { bytes }, ..*old(st) }),
{
    st.chunk = if bytes == 0 { DEFAULT_CHUNK } else { bytes };
}

/// The chunk size in force.
pub fn get_chunk_size(st: &MigState) -> (r: usize)
    ensures
        r == st.chunk_size(),
{
    if st.chunk == 0 { DEFAULT_CHUNK } else { st.chunk }
}

// ---------------------------------------------------------------------------
// The channel

/// Replace the channel with an empty one of `pages` pages; `false` (channel
/// unchanged) when that is zero bytes.
pub fn chan_new(st: &mut MigState, pages: usize) -> (ok: bool)
    requires
        old(st).wf(),
    ensures
        final(st).wf(),
        ok == (pages != 0),
        ok ==> final(st).chan_view() == Some(Seq::<u8>::empty()),
        !ok ==> final(st).chan_view() == old(st).chan_view(),
        final(st).seq == old(st).seq,
        final(st).tx_log == old(st).tx_log,
{
    match new_chan(pages) {
        Some(c) => {
            st.chan = Some(c);
            true
        },
        None => false,
    }
}

/// Empty the channel.
pub fn chan_clear(st: &mut MigState)
    requires
        old(st).wf(),
    ensures
        final(st).wf(),
        final(st).chan_view() == match old(st).chan_view() {
            Some(_) => Some(Seq::<u8>::empty()),
            None => None,
        },
        final(st).chan_cap() == old(st).chan_cap(),
        final(st).seq == old(st).seq,
        final(st).tx_log == old(st).tx_log,
{
    let mut c = st.chan.take();
    match &mut c {
        Some(b) => b.clear(),
        None => {},
    }
    st.chan = c;
}

/// Bytes held and capacity of the channel; (0, 0) without one.
pub fn chan_stats(st: &MigState) -> (r: (usize, usize))
    requires
        st.wf(),
    ensures
        r == match st.chan_view() {
            Some(c) => (c.len() as usize, st.chan_cap() as usize),
            None => (0usize, 0usize),
        },
{
    match &st.chan {
        Some(b) => b.stats(),
        None => (0, 0),
    }
}

/// Drop the oldest `bytes` bytes of the channel.
pub fn chan_consume(st: &mut MigState, bytes: usize)
    requires
        old(st).wf(),
    ensures
        final(st).wf(),
        final(st).chan_view() == match old(st).chan_view() {
            Some(c) => Some(c.skip(if bytes < c.len() { bytes as int } else { c.len() as int })),
            None => None,
        },
        final(st).seq == old(st).seq,
        final(st).tx_log == old(st).tx_log,
{
    let mut c = st.chan.take();
    match &mut c {
        Some(b) => b.consume(bytes),
        None => {},
    }
    st.chan = c;
}

/// Write raw bytes into the channel; returns the bytes taken (0 without a
/// channel), counted in `MIG_CB_WRITTEN_BYTES`.
pub fn chan_write_bytes(st: &mut MigState, buf: &[u8], m: &mut Metrics) -> (n: usize)
    requires
        old(st).wf(),
        old(m).wf(),
    ensures
        final(st).wf(),
        final(m).wf(),
        final(m).same_core(&*old(m)),
        final(m).mig@ == mig_bump(old(m).mig@, MIG_CB_WRITTEN_BYTES as int, n as u64),
        final(st).chan_view() == match old(st).chan_view() {
            Some(c) => Some(crate::migrate::chan::take_last(c + buf@, old(st).chan_cap())),
            None => None,
        },
        n == if old(st).chan is Some { buf@.len() } else { 0 },
        final(st).seq == old(st).seq,
        final(st).tx_log == old(st).tx_log,
{
    let mut c = st.chan.take();
    let n = match &mut c {
        Some(b) => b.write(buf),
        None => 0,
    };
    st.chan = c;
    mig_add(m, MIG_CB_WRITTEN_BYTES, n as u64);
    n
}

/// The channel's bytes, oldest first (empty without a channel).
pub fn chan_contents(st: &MigState) -> (r: Vec<u8>)
    requires
        st.wf(),
    ensures
        r@ == match st.chan_view() {
            Some(c) => c,
            None => Seq::<u8>::empty(),
        },
{
    match &st.chan {
        Some(b) => b.read_all(),
        None => Vec::new(),
    }
}

// ---------------------------------------------------------------------------
// Persisted configuration

/// "ZerovisorMigCfg": chunk size and next sequence number, little-endian.
pub open spec fn mig_cfg_bytes(st: &MigState) -> Seq<u8> {
    le32(st.chunk_size() as u32) + le32(st.seq)
}

/// "ZerovisorMigNet": destination MAC, MTU (32-bit), EtherType, resend sink,
/// auto-ACK, auto-NAK, default sink.
pub open spec fn mig_net_bytes(st: &MigState) -> Seq<u8> {
    st.dest_mac@ + le32(mtu_of(st) as u32) + le16(st.ether_type)
        + seq![sink_code(st.resend_sink), if st.auto_ack { 1u8 } else { 0u8 },
            if st.auto_nak { 1u8 } else { 0u8 }, sink_code(st.default_sink)]
}

fn push_le32_bytes(out: &mut Vec<u8>, v: u32)
    ensures
        final(out)@ == old(out)@ + le32(v),
{
    out.push((v & 0xFF) as u8);
    out.push(((v >> 8u32) & 0xFF) as u8);
    out.push(((v >> 16u32) & 0xFF) as u8);
    out.push(((v >> 24u32) & 0xFF) as u8);
    assert(final(out)@ =~= old(out)@ + le32(v));
}

/// The two variable values that persist the session settings; the save is
/// counted in `mig_cfg_saves`.
pub fn cfg_save(st: &MigState, m: &mut Metrics) -> (r: (Vec<u8>, Vec<u8>))
    requires
        old(m).wf(),
    ensures
        r.0@ == mig_cfg_bytes(st),
        r.1@ == mig_net_bytes(st),
        final(m).wf(),
        final(m).same_core(&*old(m)),
        final(m).mig@ == mig_bump(old(m).mig@, MIG_CFG_SAVES as int, 1),
{
    mig_add(m, MIG_CFG_SAVES, 1);
    let mut cfg: Vec<u8> = Vec::new();
    let chunk = get_chunk_size(st) as u32;
    push_le32_bytes(&mut cfg, chunk);
    push_le32_bytes(&mut cfg, st.seq);
    let mut net: Vec<u8> = Vec::new();
    let mut i: usize = 0;
    while i < 6
        invariant
            i <= 6,
            net@ == st.dest_mac@.subrange(0, i as int),
        decreases 6 - i,
    {
        net.push(st.dest_mac[i]);
        i = i + 1;
        assert(net@ =~= st.dest_mac@.subrange(0, i as int));
    }
    assert(net@ =~= st.dest_mac@);
    push_le32_bytes(&mut net, net_get_mtu(st) as u32);
    let et = st.ether_type;
    net.push((et & 0xFF) as u8);
    net.push(((et >> 8u16) & 0xFF) as u8);
    net.push(sink_to_u8(st.resend_sink));
    net.push(if st.auto_ack { 1u8 } else { 0u8 });
    net.push(if st.auto_nak { 1u8 } else { 0u8 });
    net.push(sink_to_u8(st.default_sink));
    assert(net@ =~= mig_net_bytes(st));
    (cfg, net)
}

/// Chunk size and sequence number after loading "ZerovisorMigCfg" (`cfg`,
/// when readable; used when at least 8 bytes).
pub open spec fn loaded_cfg(st: &MigState, cfg: Option<Seq<u8>>, r: &MigState) -> bool {
    match cfg {
        Some(d) if d.len() >= 8 => {
            &&& r.chunk == if le32_at(d, 0) == 0 { DEFAULT_CHUNK } else { le32_at(d, 0) as usize }
            &&& r.seq == le32_at(d, 4)
        },
        _ => r.chunk == st.chunk && r.seq == st.seq,
    }
}

/// Network and control settings after loading "ZerovisorMigNet" (`net`, when
/// readable; used when at least 10 bytes, each later field when present).
pub open spec fn loaded_net(st: &MigState, net: Option<Seq<u8>>, r: &MigState) -> bool {
    match net {
        Some(d) if d.len() >= 10 => {
            &&& r.dest_mac@ == d.subrange(0, 6)
            &&& r.mtu == if (le32_at(d, 6) as usize) < MIN_MTU { MIN_MTU } else { le32_at(d, 6) as usize }
            &&& r.ether_type == if d.len() >= 12 { le16_at(d, 10) } else { st.ether_type }
            &&& r.resend_sink == if d.len() >= 13 { sink_of_code(d[12]) } else { st.resend_sink }
            &&& r.auto_ack == if d.len() >= 14 { d[13] != 0 } else { st.auto_ack }
            &&& r.auto_nak == if d.len() >= 15 { d[14] != 0 } else { st.auto_nak }
            &&& r.default_sink == if d.len() >= 16 { sink_of_code(d[15]) } else { st.default_sink }
        },
        _ => {
            &&& r.dest_mac == st.dest_mac && r.mtu == st.mtu && r.ether_type == st.ether_type
            &&& r.resend_sink == st.resend_sink && r.auto_ack == st.auto_ack
            &&& r.auto_nak == st.auto_nak && r.default_sink == st.default_sink
        },
    }
}

pub open spec fn loaded(st: &MigState, cfg: Option<Seq<u8>>, net: Option<Seq<u8>>, r: &MigState) -> bool {
    loaded_cfg(st, cfg, r) && loaded_net(st, net, r)
}

fn load_cfg(st: &mut MigState, cfg: Option<&[u8]>)
    requires
        old(st).wf(),
    ensures
        final(st).wf(),
        loaded_cfg(&*old(st), match cfg { Some(d) => Some(d@), None => None }, &*final(st)),
        final(st).dest_mac == old(st).dest_mac && final(st).mtu == old(st).mtu,
        final(st).ether_type == old(st).ether_type && final(st).resend_sink == old(st).resend_sink,
        final(st).auto_ack == old(st).auto_ack && final(st).auto_nak == old(st).auto_nak,
        final(st).default_sink == old(st).default_sink,
        final(st).tx_log == old(st).tx_log && final(st).chan == old(st).chan && final(st).tracker == old(st).tracker,
{
    if let Some(d) = cfg {
        if d.len() >= 8 {
            let chunk = read_le32(d, 0);
            let seq = read_le32(d, 4);
            st.chunk = if chunk == 0 { DEFAULT_CHUNK } else { chunk as usize };
            st.seq = seq;
        }
    }
}

fn load_net(st: &mut MigState, net: Option<&[u8]>)
    requires
        old(st).wf(),
    ensures
        final(st).wf(),
        loaded_net(&*old(st), match net { Some(d) => Some(d@), None => None }, &*final(st)),
        final(st).chunk == old(st).chunk && final(st).seq == old(st).seq,
        final(st).tx_log == old(st).tx_log && final(st).chan == old(st).chan && final(st).tracker == old(st).tracker,
{
    if let Some(d) = net {
        if d.len() >= 10 {
            let mac: [u8; 6] = [d[0], d[1], d[2], d[3], d[4], d[5]];
            assert(mac@ =~= d@.subrange(0, 6));
            let mtu = read_le32(d, 6) as usize;
            st.dest_mac = mac;
            st.mtu = if mtu < MIN_MTU { MIN_MTU } else { mtu };
            if d.len() >= 12 {
                st.ether_type = read_le16(d, 10);
            }
            if d.len() >= 13 {
                st.resend_sink = u8_to_sink(d[12]);
            }
            if d.len() >= 14 {
                st.auto_ack = d[13] != 0;
            }
            if d.len() >= 15 {
                st.auto_nak = d[14] != 0;
            }
            if d.len() >= 16 {
                st.default_sink = u8_to_sink(d[15]);
            }
        }
    }
}

/// Load the persisted settings from the variable values `cfg` and `net`
/// (each `None` when it could not be read). A settings value of at least 8
/// bytes is counted in `mig_cfg_loads`.
pub fn cfg_load(st: &mut MigState, cfg: Option<&[u8]>, net: Option<&[u8]>, m: &mut Metrics)
    requires
        old(st).wf(),
        old(m).wf(),
    ensures
        final(m).wf(),
        final(m).same_core(&*old(m)),
        final(m).mig@ == mig_bump(old(m).mig@, MIG_CFG_LOADS as int,
            if cfg matches Some(d) && d@.len() >= 8 { 1u64 } else { 0u64 }),
        final(st).wf(),
        loaded(&*old(st), match cfg { Some(d) => Some(d@), None => None }, match net { Some(d) => Some(d@), None => None }, &*final(st)),
        final(st).tx_log == old(st).tx_log,
        final(st).chan == old(st).chan,
        final(st).tracker == old(st).tracker,
{
    let used = match cfg { Some(d) => d.len() >= 8, None => false };
    mig_add(m, MIG_CFG_LOADS, if used { 1 } else { 0 });
    load_cfg(st, cfg);
    load_net(st, net);
}

/// Saving then loading the settings restores them, for a chunk size and an
/// MTU that fit the 32-bit fields (and an MTU of at least 576).
pub proof fn lemma_cfg_roundtrip(st: &MigState, r: &MigState)
    requires
        1 <= st.chunk <= u32::MAX,
        MIN_MTU <= st.mtu <= u32::MAX,
        loaded(st, Some(mig_cfg_bytes(st)), Some(mig_net_bytes(st)), r),
    ensures
        r.chunk == st.chunk,
        r.seq == st.seq,
        r.dest_mac == st.dest_mac,
        r.mtu == st.mtu,
        r.ether_type == st.ether_type,
        r.resend_sink == st.resend_sink,
        r.auto_ack == st.auto_ack,
        r.auto_nak == st.auto_nak,
        r.default_sink == st.default_sink,
{
    let c = mig_cfg_bytes(st);
    let n = mig_net_bytes(st);
    crate::util::bytes::lemma_le32_roundtrip(st.chunk as u32);
    crate::util::bytes::lemma_le32_roundtrip(st.seq);
    crate::util::bytes::lemma_le32_roundtrip(st.mtu as u32);
    crate::util::bytes::lemma_le16_roundtrip(st.ether_type);
    assert(c.subrange(0, 4) =~= le32(st.chunk as u32));
    assert(c.subrange(4, 8) =~= le32(st.seq));
    assert(n.subrange(6, 10) =~= le32(st.mtu as u32));
    assert(n.subrange(0, 6) =~= st.dest_mac@);
    assert(st.dest_mac@ == r.dest_mac@);
    assert(r.dest_mac =~= st.dest_mac);
    crate::migrate::sink::lemma_sink_roundtrip(st.resend_sink);
    crate::migrate::sink::lemma_sink_roundtrip(st.default_sink);
}

// ---------------------------------------------------------------------------
// Tracking

/// Begin tracking `vm`: its tracker and a cleared bitmap with a bit per
/// 4 KiB page of its memory, counted in `MIG_SESSIONS`. `false` (nothing
/// changed) when the VM has no tracker.
pub fn start_tracking(st: &mut MigState, vm: &Vm, m: &mut Metrics) -> (ok: bool)
    requires
        old(st).wf(),
        old(m).wf(),
    ensures
        final(st).wf(),
        final(m).wf(),
        final(m).same_core(&*old(m)),
        final(m).mig@ == mig_bump(old(m).mig@, MIG_SESSIONS as int, if ok { 1u64 } else { 0u64 }),
        create_tracker_for_vm_spec(vm) is None ==> !ok,
        create_tracker_for_vm_spec(vm) is Some && (create_tracker_for_vm_spec(vm)->0.memory_limit + 4095) / 4096 + 7 <= usize::MAX ==> ok,
        ok ==> (final(st).tracker matches Some(t) && Some(t.tracker) == create_tracker_for_vm_spec(vm)
            && t.bitmap.bits@.len() == ((t.tracker.memory_limit + 4095) / 4096 + 7) / 8
            && forall|i: int| 0 <= i < t.bitmap.bits@.len() ==> t.bitmap.bits@[i] == 0),
        !ok ==> final(st).tracker == old(st).tracker,
        final(st).seq == old(st).seq,
        final(st).tx_log == old(st).tx_log,
        final(st).chan == old(st).chan,
{
    let tracker = match create_tracker_for_vm(vm) {
        Some(t) => t,
        None => return false,
    };
    let pages = tracker.memory_limit / 4096 + if tracker.memory_limit % 4096 == 0 { 0 } else { 1 };
    assert(pages == (tracker.memory_limit + 4095) / 4096);
    if pages > (usize::MAX as u64) - 7 {
        return false;
    }
    let bitmap = match DirtyBitmap::allocate(pages) {
        Some(b) => b,
        None => return false,
    };
    proof {
        assert(((pages + 7) / 8) * 8 <= u64::MAX);
    }
    st.tracker = Some(TrackerState { tracker, bitmap });
    mig_add(m, MIG_SESSIONS, 1);
    true
}

/// The tracker `create_tracker_for_vm` gives.
pub open spec fn create_tracker_for_vm_spec(vm: &Vm) -> Option<DirtyTracker> {
    if vm.vendor == crate::hv::vm::HvVendor::Unknown || vm.pml4_phys == 0 {
        None
    } else {
        Some(DirtyTracker {
            vm_id: vm.id.0,
            root_phys: vm.pml4_phys,
            memory_limit: if vm.config.memory_bytes > crate::hv::vm::ONE_GIB { vm.config.memory_bytes } else { crate::hv::vm::ONE_GIB },
            kind: if vm.vendor == crate::hv::vm::HvVendor::Intel {
                crate::migrate::dirty::TrackerKind::IntelEpt
            } else {
                crate::migrate::dirty::TrackerKind::AmdNpt
            },
        })
    }
}

/// The VM that a registry snapshot stands for: one virtual processor.
pub open spec fn vm_for_info(info: VmInfo) -> Vm {
    Vm {
        id: VmId(info.id),
        config: VmConfig { memory_bytes: info.memory_bytes, vcpu_count: 1 },
        vendor: info.vendor,
        pml4_phys: info.pml4_phys,
    }
}

/// What `start_tracking` does with tracker `t`: nothing without one; else
/// success whenever the bitmap's size fits, and on success `t` with a
/// cleared bitmap of a bit per 4 KiB page.
pub open spec fn tracking_outcome(before: MigState, after: MigState, ok: bool, t: Option<DirtyTracker>) -> bool {
    &&& t is None ==> !ok
    &&& t is Some && (t->0.memory_limit + 4095) / 4096 + 7 <= usize::MAX ==> ok
    &&& ok ==> (after.tracker matches Some(tr) && Some(tr.tracker) == t
        && tr.bitmap.bits@.len() == ((tr.tracker.memory_limit + 4095) / 4096 + 7) / 8
        && forall|i: int| 0 <= i < tr.bitmap.bits@.len() ==> tr.bitmap.bits@[i] == 0)
    &&& !ok ==> after.tracker == before.tracker
}

/// Begin tracking the registered VM `id` (the first one registered under
/// it), as `start_tracking` does for it; `false` when it is not registered
/// or cannot be tracked.
pub fn start_tracking_by_id(st: &mut MigState, reg: &VmRegistry, id: u64, m: &mut Metrics) -> (ok: bool)
    requires
        old(st).wf(),
        old(m).wf(),
    ensures
        final(st).wf(),
        final(m).wf(),
        final(m).same_core(&*old(m)),
        final(m).mig@ == mig_bump(old(m).mig@, MIG_SESSIONS as int, if ok { 1u64 } else { 0u64 }),
        (forall|i: int| 0 <= i < reg.infos@.len() ==> reg.infos@[i].id != id) ==> !ok && final(st).tracker == old(st).tracker,
        forall|i: int| 0 <= i < reg.infos@.len() && #[trigger] reg.infos@[i].id == id
            && (forall|j: int| 0 <= j < i ==> reg.infos@[j].id != id)
            ==> tracking_outcome(*old(st), *final(st), ok, create_tracker_for_vm_spec(&vm_for_info(reg.infos@[i]))),
        final(st).seq == old(st).seq,
        final(st).tx_log == old(st).tx_log,
        final(st).chan == old(st).chan,
{
    match find_vm(reg, id) {
        Some(info) => {
            let vm = Vm {
                id: VmId(info.id),
                config: VmConfig { memory_bytes: info.memory_bytes, vcpu_count: 1 },
                vendor: info.vendor,
                pml4_phys: info.pml4_phys,
            };
            assert(vm == vm_for_info(info));
            let ok = start_tracking(st, &vm, m);
            assert forall|i: int| 0 <= i < reg.infos@.len() && #[trigger] reg.infos@[i].id == id
                && (forall|j: int| 0 <= j < i ==> reg.infos@[j].id != id)
                implies reg.infos@[i] == info by {
                let k = choose|k: int| 0 <= k < reg.infos@.len() && reg.infos@[k] == info
                    && info.id == id && forall|j: int| 0 <= j < k ==> reg.infos@[j].id != id;
                if i < k {
                    assert(reg.infos@[i].id != id);
                } else if k < i {
                    assert(reg.infos@[k].id != id);
                }
            }
            ok
        },
        None => false,
    }
}

/// Stop tracking; `false` when nothing was tracked.
pub fn stop_tracking(st: &mut MigState) -> (ok: bool)
    requires
        old(st).wf(),
    ensures
        final(st).wf(),
        ok == old(st).tracker is Some,
        final(st).tracker is None,
        final(st).seq == old(st).seq,
        final(st).tx_log == old(st).tx_log,
        final(st).chan == old(st).chan,
{
    match st.tracker.take() {
        Some(_) => true,
        None => false,
    }
}

/// Restart numbering at 1 and forget the transmit log; empty the channel.
pub fn reset(st: &mut MigState)
    requires
        old(st).wf(),
    ensures
        final(st).wf(),
        final(st).seq == 1,
        final(st).tx_log.hist@ == Seq::<crate::migrate::session::TxEntry>::empty(),
        final(st).chan_view() == match old(st).chan_view() {
            Some(_) => Some(Seq::<u8>::empty()),
            None => None,
        },
{
    st.seq = 1;
    st.tx_log = crate::obs::ring::Ring::new(crate::migrate::session::TX_LOG_CAP,
        crate::migrate::session::TxEntry { kind: 0, seq: 0, page_index: 0 });
    chan_clear(st);
}

} // verus!
