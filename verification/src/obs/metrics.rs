//! Operation counters and the VMX smoke-test duration histogram.

use vstd::prelude::*;
use crate::util::format::{ascii, dec_digits, push_str, push_dec};

verus! {

/// A monotonically increasing event counter that wraps on overflow.
pub struct Counter {
    pub value: u64,
}

impl Counter {
    /// A counter holding `start`.
    pub fn new(start: u64) -> (c: Counter)
        ensures
            c.value == start,
    {
        Counter { value: start }
    }

    /// Add one, wrapping.
    pub fn inc(&mut self)
        ensures
            final(self).value == vstd::wrapping::u64_specs::wrapping_add(old(self).value, 1),
    {
        self.value = self.value.wrapping_add(1);
    }

    /// Add `v`, wrapping.
    pub fn add(&mut self, v: u64)
        ensures
            final(self).value == vstd::wrapping::u64_specs::wrapping_add(old(self).value, v),
    {
        self.value = self.value.wrapping_add(v);
    }

    /// The current count.
    pub fn get(&self) -> (r: u64)
        ensures
            r == self.value,
    {
        self.value
    }
}

/// Upper edges (microseconds, inclusive) of the histogram buckets; one more
/// bucket takes everything above the last edge.
pub open spec fn bucket_edges() -> Seq<u64> {
    seq![1u64, 5, 10, 25, 50, 100, 250, 1000]
}

/// The bucket a duration of `us` microseconds falls in: the first edge not
/// below it, or 8 when it exceeds them all.
pub open spec fn bucket_of(us: u64) -> nat {
    if us <= 1 { 0 }
    else if us <= 5 { 1 }
    else if us <= 10 { 2 }
    else if us <= 25 { 3 }
    else if us <= 50 { 4 }
    else if us <= 100 { 5 }
    else if us <= 250 { 6 }
    else if us <= 1000 { 7 }
    else { 8 }
}

/// Number of migration counters.
pub const MIG_COUNTERS: usize = 47;
/// Index of each migration counter in `Metrics::mig`.
pub const MIG_SESSIONS: usize = 0;
pub const MIG_SCAN_ROUNDS: usize = 1;
pub const MIG_DIRTY_PAGES: usize = 2;
pub const MIG_PRECOPY_ROUNDS: usize = 3;
pub const MIG_PRECOPY_PAGES: usize = 4;
pub const MIG_BYTES_TX: usize = 5;
pub const MIG_ZERO_SKIPPED: usize = 6;
pub const MIG_HASH_SKIPPED: usize = 7;
pub const MIG_ZERO_BYTES_SAVED: usize = 8;
pub const MIG_HASH_BYTES_SAVED: usize = 9;
pub const MIG_FRAMES: usize = 10;
pub const MIG_RAW_PAGES: usize = 11;
pub const MIG_COMPRESSED_PAGES: usize = 12;
pub const MIG_MANIFESTS: usize = 13;
pub const MIG_CTRL_FRAMES: usize = 14;
pub const MIG_ACKS: usize = 15;
pub const MIG_NAKS: usize = 16;
pub const MIG_RESEND_TRIGGERS: usize = 17;
pub const MIG_CB_WRITTEN_BYTES: usize = 18;
pub const MIG_CFG_SAVES: usize = 19;
pub const MIG_CFG_LOADS: usize = 20;
pub const MIG_NET_TX_BYTES: usize = 21;
pub const MIG_NET_CFG_SET: usize = 22;
pub const MIG_NET_TX_FRAMES: usize = 23;
pub const MIG_NET_OPEN_OK: usize = 24;
pub const MIG_NET_OPEN_FAIL: usize = 25;
pub const MIG_NET_START_OK: usize = 26;
pub const MIG_NET_START_FAIL: usize = 27;
pub const MIG_NET_INIT_OK: usize = 28;
pub const MIG_NET_INIT_FAIL: usize = 29;
pub const MIG_NET_TX_ERRS: usize = 30;
pub const MIG_PUMP_CALLS: usize = 31;
pub const MIG_PUMP_FRAMES: usize = 32;
pub const MIG_PUMP_BYTES: usize = 33;
pub const MIG_PUMP_EMPTY: usize = 34;
pub const MIG_POLL_CYCLES: usize = 35;
pub const MIG_CTRL_AUTO_ACK_SENT: usize = 36;
pub const MIG_CTRL_AUTO_NAK_SENT: usize = 37;
pub const MIG_RX_FRAMES_OK: usize = 38;
pub const MIG_RX_FRAMES_BAD: usize = 39;
pub const MIG_RX_BYTES: usize = 40;
pub const MIG_REPLAY_PAGES: usize = 41;
pub const MIG_REPLAY_BYTES: usize = 42;
pub const MIG_REPLAY_ERRORS: usize = 43;
pub const MIG_DUP_FRAMES: usize = 44;
pub const MIG_MISSING_FRAMES: usize = 45;
pub const MIG_LAST_SEQ: usize = 46;

/// The report label of each migration counter.
pub open spec fn mig_labels() -> Seq<Seq<char>> {
    seq![
        "metrics: mig_sessions="@,
        "metrics: mig_scan_rounds="@,
        "metrics: mig_dirty_pages="@,
        "metrics: mig_precopy_rounds="@,
        "metrics: mig_precopy_pages="@,
        "metrics: mig_bytes_tx="@,
        "metrics: mig_zero_skipped="@,
        "metrics: mig_hash_skipped="@,
        "metrics: mig_zero_bytes_saved="@,
        "metrics: mig_hash_bytes_saved="@,
        "metrics: mig_frames="@,
        "metrics: mig_raw_pages="@,
        "metrics: mig_compressed_pages="@,
        "metrics: mig_manifests="@,
        "metrics: mig_ctrl_frames="@,
        "metrics: mig_acks="@,
        "metrics: mig_naks="@,
        "metrics: mig_resend_triggers="@,
        "metrics: mig_cb_written_bytes="@,
        "metrics: mig_cfg_saves="@,
        "metrics: mig_cfg_loads="@,
        "metrics: mig_net_tx_bytes="@,
        "metrics: mig_net_cfg_set="@,
        "metrics: mig_net_tx_frames="@,
        "metrics: mig_net_open_ok="@,
        "metrics: mig_net_open_fail="@,
        "metrics: mig_net_start_ok="@,
        "metrics: mig_net_start_fail="@,
        "metrics: mig_net_init_ok="@,
        "metrics: mig_net_init_fail="@,
        "metrics: mig_net_tx_errs="@,
        "metrics: mig_pump_calls="@,
        "metrics: mig_pump_frames="@,
        "metrics: mig_pump_bytes="@,
        "metrics: mig_pump_empty="@,
        "metrics: mig_poll_cycles="@,
        "metrics: mig_ctrl_auto_ack="@,
        "metrics: mig_ctrl_auto_nak="@,
        "metrics: mig_rx_frames_ok="@,
        "metrics: mig_rx_frames_bad="@,
        "metrics: mig_rx_bytes="@,
        "metrics: mig_replay_pages="@,
        "metrics: mig_replay_bytes="@,
        "metrics: mig_replay_errors="@,
        "metrics: mig_dup_frames="@,
        "metrics: mig_missing_frames="@,
        "metrics: mig_last_seq="@
    ]
}

fn mig_label(i: usize) -> (r: &'static str)
    requires
        i < MIG_COUNTERS,
    ensures
        r@ == mig_labels()[i as int],
{
    match i {
        0 => "metrics: mig_sessions=",
        1 => "metrics: mig_scan_rounds=",
        2 => "metrics: mig_dirty_pages=",
        3 => "metrics: mig_precopy_rounds=",
        4 => "metrics: mig_precopy_pages=",
        5 => "metrics: mig_bytes_tx=",
        6 => "metrics: mig_zero_skipped=",
        7 => "metrics: mig_hash_skipped=",
        8 => "metrics: mig_zero_bytes_saved=",
        9 => "metrics: mig_hash_bytes_saved=",
        10 => "metrics: mig_frames=",
        11 => "metrics: mig_raw_pages=",
        12 => "metrics: mig_compressed_pages=",
        13 => "metrics: mig_manifests=",
        14 => "metrics: mig_ctrl_frames=",
        15 => "metrics: mig_acks=",
        16 => "metrics: mig_naks=",
        17 => "metrics: mig_resend_triggers=",
        18 => "metrics: mig_cb_written_bytes=",
        19 => "metrics: mig_cfg_saves=",
        20 => "metrics: mig_cfg_loads=",
        21 => "metrics: mig_net_tx_bytes=",
        22 => "metrics: mig_net_cfg_set=",
        23 => "metrics: mig_net_tx_frames=",
        24 => "metrics: mig_net_open_ok=",
        25 => "metrics: mig_net_open_fail=",
        26 => "metrics: mig_net_start_ok=",
        27 => "metrics: mig_net_start_fail=",
        28 => "metrics: mig_net_init_ok=",
        29 => "metrics: mig_net_init_fail=",
        30 => "metrics: mig_net_tx_errs=",
        31 => "metrics: mig_pump_calls=",
        32 => "metrics: mig_pump_frames=",
        33 => "metrics: mig_pump_bytes=",
        34 => "metrics: mig_pump_empty=",
        35 => "metrics: mig_poll_cycles=",
        36 => "metrics: mig_ctrl_auto_ack=",
        37 => "metrics: mig_ctrl_auto_nak=",
        38 => "metrics: mig_rx_frames_ok=",
        39 => "metrics: mig_rx_frames_bad=",
        40 => "metrics: mig_rx_bytes=",
        41 => "metrics: mig_replay_pages=",
        42 => "metrics: mig_replay_bytes=",
        43 => "metrics: mig_replay_errors=",
        44 => "metrics: mig_dup_frames=",
        45 => "metrics: mig_missing_frames=",
        46 => "metrics: mig_last_seq=",
        _ => "metrics: mig_last_seq=",
    }
}

fn zeros(n: usize) -> (v: Vec<u64>)
    ensures
        v@.len() == n,
        forall|i: int| 0 <= i < n ==> #[trigger] v@[i] == 0,
{
    let mut v: Vec<u64> = Vec::new();
    while v.len() < n
        invariant
            v@.len() <= n,
            forall|i: int| 0 <= i < v@.len() ==> #[trigger] v@[i] == 0,
        decreases n - v@.len(),
    {
        v.push(0);
    }
    v
}

/// The hypervisor's core counters, the VMX smoke-test histogram and the
/// migration counters.
pub struct Metrics {
    pub vm_created: Counter,
    pub vm_started: Counter,
    pub vcpu_started: Counter,
    pub vcpu_stopped: Counter,
    pub iommu_domain_created: Counter,
    pub iommu_assign_added: Counter,
    pub iommu_assign_removed: Counter,
    pub iommu_map_added: Counter,
    pub iommu_map_removed: Counter,
    pub iommu_inv_all: Counter,
    pub iommu_inv_domain: Counter,
    pub iommu_inv_bdf: Counter,
    /// Nine bucket counts.
    pub vmx_smoke_hist_us: Vec<u64>,
    /// The migration counters, indexed by the `MIG_*` constants.
    pub mig: Vec<u64>,
}

impl Metrics {
    pub open spec fn wf(&self) -> bool {
        &&& self.vmx_smoke_hist_us@.len() == 9
        &&& self.mig@.len() == MIG_COUNTERS
    }

    /// Every counter and bucket zero.
    pub open spec fn is_zero(&self) -> bool {
        &&& self.core_is_zero()
        &&& forall|i: int| 0 <= i < self.mig@.len() ==> #[trigger] self.mig@[i] == 0
    }

    /// The core counters and the migration counters are as in `o`.
    pub open spec fn same_counters(&self, o: &Metrics) -> bool {
        &&& self.vm_created == o.vm_created && self.vm_started == o.vm_started
        &&& self.vcpu_started == o.vcpu_started && self.vcpu_stopped == o.vcpu_stopped
        &&& self.iommu_domain_created == o.iommu_domain_created && self.iommu_assign_added == o.iommu_assign_added
        &&& self.iommu_assign_removed == o.iommu_assign_removed && self.iommu_map_added == o.iommu_map_added
        &&& self.iommu_map_removed == o.iommu_map_removed && self.iommu_inv_all == o.iommu_inv_all
        &&& self.iommu_inv_domain == o.iommu_inv_domain && self.iommu_inv_bdf == o.iommu_inv_bdf
        &&& self.mig@ == o.mig@
    }

    /// The core counters and the histogram buckets are as in `o`.
    pub open spec fn same_core(&self, o: &Metrics) -> bool {
        &&& self.vm_created == o.vm_created && self.vm_started == o.vm_started
        &&& self.vcpu_started == o.vcpu_started && self.vcpu_stopped == o.vcpu_stopped
        &&& self.iommu_domain_created == o.iommu_domain_created && self.iommu_assign_added == o.iommu_assign_added
        &&& self.iommu_assign_removed == o.iommu_assign_removed && self.iommu_map_added == o.iommu_map_added
        &&& self.iommu_map_removed == o.iommu_map_removed && self.iommu_inv_all == o.iommu_inv_all
        &&& self.iommu_inv_domain == o.iommu_inv_domain && self.iommu_inv_bdf == o.iommu_inv_bdf
        &&& self.vmx_smoke_hist_us@ == o.vmx_smoke_hist_us@
    }

    /// The core counters and the histogram buckets are zero.
    pub open spec fn core_is_zero(&self) -> bool {
        &&& self.vm_created.value == 0 && self.vm_started.value == 0
        &&& self.vcpu_started.value == 0 && self.vcpu_stopped.value == 0
        &&& self.iommu_domain_created.value == 0 && self.iommu_assign_added.value == 0
        &&& self.iommu_assign_removed.value == 0 && self.iommu_map_added.value == 0
        &&& self.iommu_map_removed.value == 0 && self.iommu_inv_all.value == 0
        &&& self.iommu_inv_domain.value == 0 && self.iommu_inv_bdf.value == 0
        &&& self.vmx_smoke_hist_us@ == seq![0u64, 0, 0, 0, 0, 0, 0, 0, 0]
    }

    /// All counters at zero.
    pub fn new() -> (m: Metrics)
        ensures
            m.wf(),
            m.is_zero(),
    {
        let m = Metrics {
            vm_created: Counter::new(0),
            vm_started: Counter::new(0),
            vcpu_started: Counter::new(0),
            vcpu_stopped: Counter::new(0),
            iommu_domain_created: Counter::new(0),
            iommu_assign_added: Counter::new(0),
            iommu_assign_removed: Counter::new(0),
            iommu_map_added: Counter::new(0),
            iommu_map_removed: Counter::new(0),
            iommu_inv_all: Counter::new(0),
            iommu_inv_domain: Counter::new(0),
            iommu_inv_bdf: Counter::new(0),
            vmx_smoke_hist_us: vec![0u64, 0, 0, 0, 0, 0, 0, 0, 0],
            mig: zeros(MIG_COUNTERS),
        };
        assert(m.vmx_smoke_hist_us@ =~= seq![0u64, 0, 0, 0, 0, 0, 0, 0, 0]);
        m
    }
}

/// Count one VMX smoke-test duration of `us` microseconds in its bucket (wrapping).
pub fn observe_vmx_smoke_us(m: &mut Metrics, us: u64)
    requires
        old(m).wf(),
    ensures
        final(m).wf(),
        final(m).vmx_smoke_hist_us@ == old(m).vmx_smoke_hist_us@.update(
            bucket_of(us) as int,
            vstd::wrapping::u64_specs::wrapping_add(old(m).vmx_smoke_hist_us@[bucket_of(us) as int], 1),
        ),
        final(m).same_counters(&*old(m)),
{
    let edges: [u64; 8] = [1, 5, 10, 25, 50, 100, 250, 1000];
    assert(edges@ =~= bucket_edges());
    let mut idx: usize = 8;
    let mut i: usize = 0;
    while i < 8
        invariant_except_break
            i <= 8,
            idx == 8,
            forall|j: int| 0 <= j < i ==> us > edges@[j],
        invariant
            edges@ == bucket_edges(),
        ensures
            (idx < 8 && us <= edges@[idx as int] && forall|j: int| 0 <= j < idx ==> us > edges@[j])
                || (idx == 8 && forall|j: int| 0 <= j < 8 ==> us > edges@[j]),
        decreases 8 - i,
    {
        if us <= edges[i] {
            idx = i;
            break;
        }
        i = i + 1;
    }
    proof {
        if idx == 8 {
            assert(us > edges@[7]);
        } else {
            assert(forall|j: int| 0 <= j < idx ==> us > edges@[j]);
        }
    }
    assert(idx == bucket_of(us));
    let v = m.vmx_smoke_hist_us[idx];
    m.vmx_smoke_hist_us.set(idx, v.wrapping_add(1));
}

/// Zero the core counters and the histogram buckets; the migration
/// counters keep their values.
pub fn reset(m: &mut Metrics)
    requires
        old(m).wf(),
    ensures
        final(m).wf(),
        final(m).core_is_zero(),
        final(m).mig@ == old(m).mig@,
{
    let mut fresh = Metrics::new();
    std::mem::swap(&mut fresh.mig, &mut m.mig);
    *m = fresh;
}

/// Migration counters `s` with counter `i` advanced by `v` (wrapping).
pub open spec fn mig_bump(s: Seq<u64>, i: int, v: u64) -> Seq<u64> {
    s.update(i, vstd::wrapping::u64_specs::wrapping_add(s[i], v))
}

/// Counter value `v` advanced by `t` in all, wrapping at 2^64.
pub open spec fn add_wrapped(v: u64, t: nat) -> u64 {
    ((v + t) % 0x1_0000_0000_0000_0000int) as u64
}

/// Advancing by `t` and then by `x` (wrapping) is advancing by `t + x`.
pub proof fn lemma_add_wrapped_step(v: u64, t: nat, x: u64)
    ensures
        vstd::wrapping::u64_specs::wrapping_add(add_wrapped(v, t), x) == add_wrapped(v, (t + x) as nat),
        add_wrapped(v, 0) == v,
{
    let m: int = 0x1_0000_0000_0000_0000int;
    let a: int = (v + t) % m;
    vstd::arithmetic::div_mod::lemma_add_mod_noop(v + t, x as int, m);
    vstd::arithmetic::div_mod::lemma_small_mod(x as nat, m as nat);
    vstd::arithmetic::div_mod::lemma_small_mod(v as nat, m as nat);
    assert(0 <= a < m);
    assert((a + x) % m == if a + x >= m { a + x - m } else { a + x }) by (nonlinear_arith)
        requires 0 <= a < m, 0 <= x < m, m == 0x1_0000_0000_0000_0000int;
}

/// Advancing by `t` and then by `y` reduced to 64 bits is advancing by `t + y`.
pub proof fn lemma_add_wrapped_mod(v: u64, t: nat, y: nat)
    ensures
        vstd::wrapping::u64_specs::wrapping_add(add_wrapped(v, t), (y % 0x1_0000_0000_0000_0000nat) as u64)
            == add_wrapped(v, t + y),
{
    let m: int = 0x1_0000_0000_0000_0000int;
    let x: u64 = (y % 0x1_0000_0000_0000_0000nat) as u64;
    lemma_add_wrapped_step(v, t, x);
    vstd::arithmetic::div_mod::lemma_add_mod_noop(v + t, x as int, m);
    vstd::arithmetic::div_mod::lemma_add_mod_noop(v + t, y as int, m);
    vstd::arithmetic::div_mod::lemma_small_mod(x as nat, m as nat);
}

/// Advancing by `t` and then by `x` (both wrapping) is advancing by `t + x`.
pub proof fn lemma_add_wrapped_twice(v: u64, t: nat, x: nat)
    ensures
        add_wrapped(add_wrapped(v, t), x) == add_wrapped(v, t + x),
{
    let m: int = 0x1_0000_0000_0000_0000int;
    let a: int = (v + t) % m;
    vstd::arithmetic::div_mod::lemma_add_mod_noop(v + t, x as int, m);
    vstd::arithmetic::div_mod::lemma_add_mod_noop(a, x as int, m);
    vstd::arithmetic::div_mod::lemma_mod_bound((v + t) as int, m);
    vstd::arithmetic::div_mod::lemma_small_mod(a as nat, m as nat);
}

/// Set migration counter `idx` to `v`.
pub fn mig_set(m: &mut Metrics, idx: usize, v: u64)
    requires
        old(m).wf(),
        idx < MIG_COUNTERS,
    ensures
        final(m).wf(),
        final(m).mig@ == old(m).mig@.update(idx as int, v),
        final(m).same_core(&*old(m)),
{
    m.mig.set(idx, v);
}

/// Add `v` to migration counter `idx` (wrapping).
pub fn mig_add(m: &mut Metrics, idx: usize, v: u64)
    requires
        old(m).wf(),
        idx < MIG_COUNTERS,
    ensures
        final(m).wf(),
        final(m).mig@ == mig_bump(old(m).mig@, idx as int, v),
        final(m).same_core(&*old(m)),
{
    let c = m.mig[idx];
    m.mig.set(idx, c.wrapping_add(v));
}

/// A counter's line: its label, the value's low 32 bits in decimal, CR LF.
pub open spec fn counter_line(label: Seq<char>, v: u64) -> Seq<u8> {
    ascii(label) + dec_digits((v as u32) as nat) + seq![13u8, 10u8]
}

fn counter_line_exec(label: &str, v: u64) -> (r: Vec<u8>)
    ensures
        r@ == counter_line(label@, v),
{
    let mut out: Vec<u8> = Vec::new();
    push_str(&mut out, label);
    push_dec(&mut out, v as u32);
    out.push(13);
    out.push(10);
    assert(out@ =~= counter_line(label@, v));
    out
}

/// The first `i` buckets of the histogram line: `[<=edge:count]`, comma-separated.
pub open spec fn bucket_text(h: Seq<u64>, i: nat) -> Seq<u8>
    decreases i,
{
    if i == 0 {
        Seq::empty()
    } else {
        let k = (i - 1) as int;
        bucket_text(h, (i - 1) as nat) + (if k > 0 { seq![44u8] } else { Seq::empty() })
            + seq![91u8, 60u8, 61u8] + dec_digits(bucket_edges()[k] as nat) + seq![58u8]
            + dec_digits((h[k] as u32) as nat) + seq![93u8]
    }
}

/// The histogram line: each bucket with its upper edge, then the overflow
/// bucket after `>1000`.
pub open spec fn hist_line(h: Seq<u64>) -> Seq<u8> {
    ascii("metrics: vmx_smoke_us="@) + bucket_text(h, 8) + seq![44u8, 91u8, 62u8] + dec_digits(1000)
        + seq![58u8] + dec_digits((h[8] as u32) as nat) + seq![93u8, 13u8, 10u8]
}

fn hist_line_exec(h: &Vec<u64>) -> (r: Vec<u8>)
    requires
        h@.len() == 9,
    ensures
        r@ == hist_line(h@),
{
    let edges: [u64; 8] = [1, 5, 10, 25, 50, 100, 250, 1000];
    assert(edges@ =~= bucket_edges());
    let mut out: Vec<u8> = Vec::new();
    push_str(&mut out, "metrics: vmx_smoke_us=");
    let ghost head = out@;
    let mut i: usize = 0;
    while i < 8
        invariant
            i <= 8,
            h@.len() == 9,
            edges@ == bucket_edges(),
            out@ == head + bucket_text(h@, i as nat),
        decreases 8 - i,
    {
        if i > 0 {
            out.push(44);
        }
        out.push(91);
        out.push(60);
        out.push(61);
        push_dec(&mut out, edges[i] as u32);
        out.push(58);
        push_dec(&mut out, h[i] as u32);
        out.push(93);
        i = i + 1;
        assert(out@ =~= head + bucket_text(h@, i as nat));
    }
    out.push(44);
    out.push(91);
    out.push(62);
    push_dec(&mut out, 1000);
    out.push(58);
    push_dec(&mut out, h[8] as u32);
    out.push(93);
    out.push(13);
    out.push(10);
    assert(out@ =~= hist_line(h@));
    out
}

/// The metrics report: one line per counter, then the histogram line.
pub fn dump(m: &Metrics) -> (r: Vec<Vec<u8>>)
    requires
        m.wf(),
    ensures
        r@.len() == 60,
        r@[0]@ == counter_line("metrics: vm_created="@, m.vm_created.value),
        r@[1]@ == counter_line("metrics: vm_started="@, m.vm_started.value),
        r@[2]@ == counter_line("metrics: vcpu_started="@, m.vcpu_started.value),
        r@[3]@ == counter_line("metrics: vcpu_stopped="@, m.vcpu_stopped.value),
        r@[4]@ == counter_line("metrics: iommu_domain_created="@, m.iommu_domain_created.value),
        r@[5]@ == counter_line("metrics: iommu_assign_added="@, m.iommu_assign_added.value),
        r@[6]@ == counter_line("metrics: iommu_assign_removed="@, m.iommu_assign_removed.value),
        r@[7]@ == counter_line("metrics: iommu_map_added="@, m.iommu_map_added.value),
        r@[8]@ == counter_line("metrics: iommu_map_removed="@, m.iommu_map_removed.value),
        r@[9]@ == counter_line("metrics: iommu_inval_all="@, m.iommu_inv_all.value),
        r@[10]@ == counter_line("metrics: iommu_inval_domain="@, m.iommu_inv_domain.value),
        r@[11]@ == counter_line("metrics: iommu_inval_bdf="@, m.iommu_inv_bdf.value),
        forall|k: int| 0 <= k < MIG_COUNTERS ==> #[trigger] r@[12 + k]@ == counter_line(mig_labels()[k], m.mig@[k]),
        r@[59]@ == hist_line(m.vmx_smoke_hist_us@),
{
    let mut out: Vec<Vec<u8>> = Vec::new();
    out.push(counter_line_exec("metrics: vm_created=", m.vm_created.value));
    out.push(counter_line_exec("metrics: vm_started=", m.vm_started.value));
    out.push(counter_line_exec("metrics: vcpu_started=", m.vcpu_started.value));
    out.push(counter_line_exec("metrics: vcpu_stopped=", m.vcpu_stopped.value));
    out.push(counter_line_exec("metrics: iommu_domain_created=", m.iommu_domain_created.value));
    out.push(counter_line_exec("metrics: iommu_assign_added=", m.iommu_assign_added.value));
    out.push(counter_line_exec("metrics: iommu_assign_removed=", m.iommu_assign_removed.value));
    out.push(counter_line_exec("metrics: iommu_map_added=", m.iommu_map_added.value));
    out.push(counter_line_exec("metrics: iommu_map_removed=", m.iommu_map_removed.value));
    out.push(counter_line_exec("metrics: iommu_inval_all=", m.iommu_inv_all.value));
    out.push(counter_line_exec("metrics: iommu_inval_domain=", m.iommu_inv_domain.value));
    out.push(counter_line_exec("metrics: iommu_inval_bdf=", m.iommu_inv_bdf.value));
    let ghost core = out@;
    let mut i: usize = 0;
    while i < MIG_COUNTERS
        invariant
            i <= MIG_COUNTERS,
            m.wf(),
            out@.len() == 12 + i,
            forall|k: int| 0 <= k < 12 ==> #[trigger] out@[k] == core[k],
            forall|k: int| 0 <= k < i ==> #[trigger] out@[12 + k]@ == counter_line(mig_labels()[k], m.mig@[k]),
        decreases MIG_COUNTERS - i,
    {
        out.push(counter_line_exec(mig_label(i), m.mig[i]));
        i = i + 1;
    }
    out.push(hist_line_exec(&m.vmx_smoke_hist_us));
    out
}

} // verus!
