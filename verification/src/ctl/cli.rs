//! The interactive console: editing of the input line, and the parser that
//! turns a line into the command to run.
//!
//! The read-eval loop (reading keys, printing, running commands) belongs to
//! the caller: it feeds each key to [`edit_line`] and, once the line is done,
//! runs what [`parse_command`] returns.

use vstd::prelude::*;
use crate::ctl::text::{is_word_ic, has_prefix, trim_range, parse_uint, piece, skip_hex_marks,
    eq_ic, trim, parse_num, nth_piece, strip_hex_marks, starts_with, word_len, find, find_from,
    split_words, words, holds_byte, contains, lemma_words};
use crate::i18n::Lang;
use crate::obs::log::Level;

verus! {

// ---------------------------------------------------------------------------
// Line editing

/// Longest input line.
pub const LINE_MAX: usize = 80;

/// What a key did to the input line.
#[derive(Clone, Copy, Debug, PartialEq, Eq, Structural)]
pub enum LineEdit {
    /// Enter: the line is complete.
    Done,
    /// The line may have changed; keep reading.
    Continue,
}

/// Apply the printable key `ch` (a UCS-2 code) to the line: carriage return
/// or line feed completes it; backspace or delete removes the last byte;
/// another ASCII character is appended while there is room; anything else
/// is ignored.
pub fn edit_line(line: &mut Vec<u8>, ch: u16) -> (r: LineEdit)
    requires
        old(line)@.len() <= LINE_MAX,
    ensures
        final(line)@.len() <= LINE_MAX,
        (ch == 13 || ch == 10) ==> r == LineEdit::Done && final(line)@ == old(line)@,
        !(ch == 13 || ch == 10) ==> r == LineEdit::Continue,
        (ch == 8 || ch == 127) ==> final(line)@ == if old(line)@.len() > 0 { old(line)@.drop_last() } else { old(line)@ },
        (ch != 13 && ch != 10 && ch != 8 && ch != 127) ==> final(line)@ == if ch < 128 && old(line)@.len() < LINE_MAX {
            old(line)@.push(ch as u8)
        } else {
            old(line)@
        },
{
    if ch == 13 || ch == 10 {
        return LineEdit::Done;
    }
    if ch == 8 || ch == 127 {
        if line.len() > 0 {
            line.pop();
        }
    } else if ch < 128 && line.len() < LINE_MAX {
        line.push(ch as u8);
    }
    LineEdit::Continue
}

// ---------------------------------------------------------------------------
// Commands

/// Commands whose arguments were not understood; each has its usage line.
#[derive(Clone, Copy, Debug, PartialEq, Eq, Structural)]
pub enum Usage {
    Dom,
    IommuPlanDom,
    IommuTe,
    IommuLsctx,
    IommuXlate,
    IommuWalk,
    IommuInvalidateDom,
    IommuInvalidateBdf,
    IommuRoot,
    IommuDump,
    LogLevel,
    Dump,
    Wdog,
    PciClass,
    TimeWait,
    Vm,
}

/// A parsed console command.
#[derive(Clone, Copy, Debug, PartialEq, Eq, Structural)]
pub enum Command {
    Help,
    Version,
    DomDestroy(u16),
    DomPurge(u16),
    DomNew,
    DomAssign { seg: u16, bus: u8, dev: u8, func: u8, domid: u16 },
    DomUnassign { seg: u16, bus: u8, dev: u8, func: u8 },
    DomList,
    DomMap { domid: u16, iova: u64, pa: u64, len: u64, r: bool, w: bool, x: bool },
    DomUnmap { domid: u16, iova: u64, len: u64 },
    DomDump,
    DomMappings,
    /// A `dom` subcommand whose arguments were incomplete: nothing is done or said.
    DomIncomplete,
    Quit,
    Info,
    Virtio,
    IommuInfo,
    AmdvEnable,
    AmdvDisable,
    IommuSummary,
    IommuStats,
    IommuEnable,
    IommuDisable,
    IommuPlan,
    IommuPlanDom(u16),
    IommuUnits,
    IommuTe { index: usize, on: bool },
    IommuLsctx(u8),
    IommuValidate,
    IommuVerify,
    IommuVerifyMap,
    IommuXlate { seg: u16, bus: u8, dev: u8, func: u8, iova: u64 },
    IommuWalk { seg: u16, bus: u8, dev: u8, func: u8, iova: u64 },
    IommuApply,
    IommuApplyRefresh,
    IommuApplySafe,
    IommuSync,
    IommuInvalidate,
    IommuInvalidateDom(u16),
    IommuInvalidateBdf { seg: u16, bus: u8, dev: u8, func: u8 },
    IommuHardInvalidate,
    IommuFsts,
    IommuFclear,
    IommuRoot(u8),
    IommuDump { bus: u8, dev: u8, func: u8 },
    Trace,
    TraceClear,
    Metrics,
    MetricsClear,
    Logs,
    /// Level 0 (info), 1 (warn) or 2 (error); the category is the line's bytes `cat_lo..cat_hi`.
    LogsFilter { level: u8, cat_lo: usize, cat_hi: usize },
    LogLevel(Level),
    DumpRegs,
    DumpIdt,
    DumpGdt,
    /// A language, or `None` to follow the firmware again.
    SetLang(Option<Lang>),
    Sec,
    Audit,
    WdogReport,
    WdogOff,
    WdogArm(usize),
    Pci,
    PciClass(u32, u32),
    PciFind { vid: Option<u16>, did: Option<u16> },
    TimeShow,
    TimeWait { usec: u64, stall: bool },
    Vm,
    VmPause,
    VmResume,
    VmNew,
    VmStart,
    Usage(Usage),
    Unknown,
}

// ---------------------------------------------------------------------------
// Argument forms

pub open spec fn ic(s: Seq<u8>, r: (int, int), w: Seq<char>) -> bool {
    is_word_ic(s, r.0, r.1, w)
}

pub open spec fn pre(s: Seq<u8>, r: (int, int), p: Seq<char>) -> bool {
    has_prefix(s, r.0, r.1, p)
}

/// The part of `r` after the prefix `p`.
pub open spec fn after(r: (int, int), p: Seq<char>) -> (int, int) {
    (r.0 + p.len(), r.1)
}

pub open spec fn trimmed(s: Seq<u8>, r: (int, int)) -> (int, int) {
    trim_range(s, r.0, r.1)
}

pub open spec fn dec(s: Seq<u8>, r: (int, int), max: nat) -> Option<nat> {
    parse_uint(s, r.0, r.1, 10, max)
}

pub open spec fn hex(s: Seq<u8>, r: (int, int), max: nat) -> Option<nat> {
    parse_uint(s, r.0, r.1, 16, max)
}

pub open spec fn split_at(s: Seq<u8>, r: (int, int), sep: char, k: nat) -> Option<(int, int)> {
    piece(s, r.0, r.1, sep as u8, k)
}

pub open spec fn opt8(o: Option<nat>) -> Option<u8> {
    match o { Some(n) => Some(n as u8), None => None }
}

pub open spec fn opt16(o: Option<nat>) -> Option<u16> {
    match o { Some(n) => Some(n as u16), None => None }
}

pub open spec fn opt32(o: Option<nat>) -> Option<u32> {
    match o { Some(n) => Some(n as u32), None => None }
}

pub open spec fn opt64(o: Option<nat>) -> Option<u64> {
    match o { Some(n) => Some(n as u64), None => None }
}

pub open spec fn wf_range(s: Seq<u8>, r: (int, int)) -> bool {
    0 <= r.0 <= r.1 <= s.len()
}

fn eqw(s: &[u8], r: (usize, usize), w: &str) -> (b: bool)
    requires
        r.0 <= r.1 <= s@.len(),
    ensures
        b == ic(s@, (r.0 as int, r.1 as int), w@),
{
    eq_ic(s, r.0, r.1, w)
}

fn trimr(s: &[u8], r: (usize, usize)) -> (t: (usize, usize))
    requires
        r.0 <= r.1 <= s@.len(),
    ensures
        (t.0 as int, t.1 as int) == trimmed(s@, (r.0 as int, r.1 as int)),
        r.0 <= t.0 <= t.1 <= r.1,
{
    trim(s, r.0, r.1)
}

fn dec_u16(s: &[u8], r: (usize, usize)) -> (v: Option<u16>)
    requires
        r.0 <= r.1 <= s@.len(),
    ensures
        v == opt16(dec(s@, (r.0 as int, r.1 as int), 0xFFFF)),
{
    match parse_num(s, r.0, r.1, 10, 0xFFFF) {
        Some(n) => Some(n as u16),
        None => None,
    }
}

fn hex_u8(s: &[u8], r: (usize, usize)) -> (v: Option<u8>)
    requires
        r.0 <= r.1 <= s@.len(),
    ensures
        v == opt8(hex(s@, (r.0 as int, r.1 as int), 0xFF)),
{
    match parse_num(s, r.0, r.1, 16, 0xFF) {
        Some(n) => Some(n as u8),
        None => None,
    }
}

fn hex_u16(s: &[u8], r: (usize, usize)) -> (v: Option<u16>)
    requires
        r.0 <= r.1 <= s@.len(),
    ensures
        v == opt16(hex(s@, (r.0 as int, r.1 as int), 0xFFFF)),
{
    match parse_num(s, r.0, r.1, 16, 0xFFFF) {
        Some(n) => Some(n as u16),
        None => None,
    }
}

/// A hexadecimal `u64` after any leading "0x" marks.
pub open spec fn hex64_marked(s: Seq<u8>, r: (int, int)) -> Option<u64> {
    opt64(hex(s, (skip_hex_marks(s, r.0, r.1), r.1), 0xFFFF_FFFF_FFFF_FFFF))
}

fn hex_u64_marked(s: &[u8], r: (usize, usize)) -> (v: Option<u64>)
    requires
        r.0 <= r.1 <= s@.len(),
    ensures
        v == hex64_marked(s@, (r.0 as int, r.1 as int)),
{
    let a = strip_hex_marks(s, r.0, r.1);
    match parse_num(s, a, r.1, 16, 0xFFFF_FFFF_FFFF_FFFF) {
        Some(n) => Some(n),
        None => None,
    }
}

/// A hexadecimal `u16` after any leading "0x" marks.
pub open spec fn hex16_marked(s: Seq<u8>, r: (int, int)) -> Option<u16> {
    opt16(hex(s, (skip_hex_marks(s, r.0, r.1), r.1), 0xFFFF))
}

fn hex_u16_marked(s: &[u8], r: (usize, usize)) -> (v: Option<u16>)
    requires
        r.0 <= r.1 <= s@.len(),
    ensures
        v == hex16_marked(s@, (r.0 as int, r.1 as int)),
{
    let a = strip_hex_marks(s, r.0, r.1);
    hex_u16(s, (a, r.1))
}

fn piece_of(s: &[u8], r: (usize, usize), sep: char, k: usize) -> (p: Option<(usize, usize)>)
    requires
        r.0 <= r.1 <= s@.len(),
    ensures
        match p {
            Some(q) => split_at(s@, (r.0 as int, r.1 as int), sep, k as nat) == Some((q.0 as int, q.1 as int))
                && r.0 <= q.0 <= q.1 <= r.1,
            None => split_at(s@, (r.0 as int, r.1 as int), sep, k as nat) is None,
        },
{
    nth_piece(s, r.0, r.1, sep as u8, k)
}

/// `seg:bus:dev.func` in hexadecimal, each part trimmed.
pub open spec fn bdf_trimmed(s: Seq<u8>, r: (int, int)) -> Option<(u16, u8, u8, u8)> {
    match (split_at(s, r, ':', 0), split_at(s, r, ':', 1), split_at(s, r, ':', 2)) {
        (Some(p0), Some(p1), Some(p2)) => {
            let df = trimmed(s, p2);
            match (split_at(s, df, '.', 0), split_at(s, df, '.', 1)) {
                (Some(q0), Some(q1)) => match (
                    hex(s, trimmed(s, p0), 0xFFFF),
                    hex(s, trimmed(s, p1), 0xFF),
                    hex(s, trimmed(s, q0), 0xFF),
                    hex(s, trimmed(s, q1), 0xFF),
                ) {
                    (Some(a), Some(b), Some(c), Some(d)) => Some((a as u16, b as u8, c as u8, d as u8)),
                    _ => None,
                },
                _ => None,
            }
        },
        _ => None,
    }
}

fn parse_bdf_trimmed(s: &[u8], r: (usize, usize)) -> (v: Option<(u16, u8, u8, u8)>)
    requires
        r.0 <= r.1 <= s@.len(),
    ensures
        v == bdf_trimmed(s@, (r.0 as int, r.1 as int)),
{
    let p0 = match piece_of(s, r, ':', 0) { Some(p) => p, None => return None };
    let p1 = match piece_of(s, r, ':', 1) { Some(p) => p, None => return None };
    let p2 = match piece_of(s, r, ':', 2) { Some(p) => p, None => return None };
    let df = trimr(s, p2);
    let q0 = match piece_of(s, df, '.', 0) { Some(p) => p, None => return None };
    let q1 = match piece_of(s, df, '.', 1) { Some(p) => p, None => return None };
    let a = hex_u16(s, trimr(s, p0));
    let b = hex_u8(s, trimr(s, p1));
    let c = hex_u8(s, trimr(s, q0));
    let d = hex_u8(s, trimr(s, q1));
    match (a, b, c, d) {
        (Some(a), Some(b), Some(c), Some(d)) => Some((a, b, c, d)),
        _ => None,
    }
}

/// `seg:bus:dev.func` in hexadecimal, parts as they stand.
pub open spec fn bdf_plain(s: Seq<u8>, r: (int, int)) -> Option<(u16, u8, u8, u8)> {
    match (split_at(s, r, ':', 0), split_at(s, r, ':', 1), split_at(s, r, ':', 2)) {
        (Some(p0), Some(p1), Some(p2)) => match (split_at(s, p2, '.', 0), split_at(s, p2, '.', 1)) {
            (Some(q0), Some(q1)) => match (hex(s, p0, 0xFFFF), hex(s, p1, 0xFF), hex(s, q0, 0xFF), hex(s, q1, 0xFF)) {
                (Some(a), Some(b), Some(c), Some(d)) => Some((a as u16, b as u8, c as u8, d as u8)),
                _ => None,
            },
            _ => None,
        },
        _ => None,
    }
}

fn parse_bdf_plain(s: &[u8], r: (usize, usize)) -> (v: Option<(u16, u8, u8, u8)>)
    requires
        r.0 <= r.1 <= s@.len(),
    ensures
        v == bdf_plain(s@, (r.0 as int, r.1 as int)),
{
    let p0 = match piece_of(s, r, ':', 0) { Some(p) => p, None => return None };
    let p1 = match piece_of(s, r, ':', 1) { Some(p) => p, None => return None };
    let p2 = match piece_of(s, r, ':', 2) { Some(p) => p, None => return None };
    let q0 = match piece_of(s, p2, '.', 0) { Some(p) => p, None => return None };
    let q1 = match piece_of(s, p2, '.', 1) { Some(p) => p, None => return None };
    match (hex_u16(s, p0), hex_u8(s, p1), hex_u8(s, q0), hex_u8(s, q1)) {
        (Some(a), Some(b), Some(c), Some(d)) => Some((a, b, c, d)),
        _ => None,
    }
}

/// `bus:dev.func` in hexadecimal.
pub open spec fn bus_devfn(s: Seq<u8>, r: (int, int)) -> Option<(u8, u8, u8)> {
    match (split_at(s, r, ':', 0), split_at(s, r, ':', 1)) {
        (Some(p0), Some(p1)) => match (split_at(s, p1, '.', 0), split_at(s, p1, '.', 1)) {
            (Some(q0), Some(q1)) => match (hex(s, p0, 0xFF), hex(s, q0, 0xFF), hex(s, q1, 0xFF)) {
                (Some(a), Some(b), Some(c)) => Some((a as u8, b as u8, c as u8)),
                _ => None,
            },
            _ => None,
        },
        _ => None,
    }
}

fn parse_bus_devfn(s: &[u8], r: (usize, usize)) -> (v: Option<(u8, u8, u8)>)
    requires
        r.0 <= r.1 <= s@.len(),
    ensures
        v == bus_devfn(s@, (r.0 as int, r.1 as int)),
{
    let p0 = match piece_of(s, r, ':', 0) { Some(p) => p, None => return None };
    let p1 = match piece_of(s, r, ':', 1) { Some(p) => p, None => return None };
    let q0 = match piece_of(s, p1, '.', 0) { Some(p) => p, None => return None };
    let q1 = match piece_of(s, p1, '.', 1) { Some(p) => p, None => return None };
    match (hex_u8(s, p0), hex_u8(s, q0), hex_u8(s, q1)) {
        (Some(a), Some(b), Some(c)) => Some((a, b, c)),
        _ => None,
    }
}

fn pfx(s: &[u8], r: (usize, usize), p: &str) -> (b: bool)
    requires
        r.0 <= r.1 <= s@.len(),
    ensures
        b == pre(s@, (r.0 as int, r.1 as int), p@),
        b ==> r.0 + p@.len() <= r.1,
{
    starts_with(s, r.0, r.1, p)
}

/// The words of a range, as ranges.
fn words_of(s: &[u8], r: (usize, usize)) -> (ws: Vec<(usize, usize)>)
    requires
        r.0 <= r.1 <= s@.len(),
    ensures
        ws@.len() == words(s@, r.0 as int, r.1 as int).len(),
        forall|k: int| 0 <= k < ws@.len() ==> ((#[trigger] ws@[k]).0 as int, ws@[k].1 as int) == words(s@, r.0 as int, r.1 as int)[k],
        forall|k: int| 0 <= k < ws@.len() ==> r.0 <= (#[trigger] ws@[k]).0 <= ws@[k].1 <= r.1,
{
    split_words(s, r.0, r.1)
}

// ---------------------------------------------------------------------------
// Keyword arguments

/// The `bdf=` and `iova=` arguments of `iommu xlate` and `iommu walk`.
#[derive(Clone, Copy, Debug, PartialEq, Eq, Structural)]
pub struct XlateArgs {
    pub seg: Option<u16>,
    pub bus: Option<u8>,
    pub dev: Option<u8>,
    pub func: Option<u8>,
    pub iova: Option<u64>,
}

/// One word of `iommu xlate`: `bdf=<seg>:<bus>:<dev>.<func>` (hexadecimal)
/// sets the device; `iova=<hex>` sets the address. A later word overrides an
/// earlier one.
pub open spec fn xlate_word(s: Seq<u8>, a: XlateArgs, t: (int, int)) -> XlateArgs {
    let a1 = if pre(s, t, "bdf="@) {
        let v = after(t, "bdf="@);
        match (split_at(s, v, ':', 0), split_at(s, v, ':', 1), split_at(s, v, ':', 2)) {
            (Some(p0), Some(p1), Some(df)) => match (split_at(s, df, '.', 0), split_at(s, df, '.', 1)) {
                (Some(d), Some(f)) => XlateArgs {
                    seg: opt16(hex(s, p0, 0xFFFF)),
                    bus: opt8(hex(s, p1, 0xFF)),
                    dev: opt8(hex(s, d, 0xFF)),
                    func: opt8(hex(s, f, 0xFF)),
                    iova: a.iova,
                },
                _ => a,
            },
            _ => a,
        }
    } else {
        a
    };
    if pre(s, t, "iova="@) {
        XlateArgs { seg: a1.seg, bus: a1.bus, dev: a1.dev, func: a1.func, iova: hex64_marked(s, after(t, "iova="@)) }
    } else {
        a1
    }
}

pub open spec fn xlate_args(s: Seq<u8>, ws: Seq<(int, int)>) -> XlateArgs
    decreases ws.len(),
{
    if ws.len() == 0 {
        XlateArgs { seg: None, bus: None, dev: None, func: None, iova: None }
    } else {
        xlate_word(s, xlate_args(s, ws.drop_last()), ws.last())
    }
}

/// The last `iova=` word of an `iommu xlate` command sets the address to
/// translate to its hexadecimal value, whatever the other words say.
pub proof fn law_xlate_iova(s: Seq<u8>, ws: Seq<(int, int)>, k: int)
    requires
        0 <= k < ws.len(),
        pre(s, ws[k], "iova="@),
        forall|j: int| k < j < ws.len() ==> !pre(s, #[trigger] ws[j], "iova="@),
    ensures
        xlate_args(s, ws).iova == hex64_marked(s, (ws[k].0 + 5, ws[k].1)),
    decreases ws.len(),
{
    reveal_strlit("iova=");
    let n = ws.len() - 1;
    if k < n {
        law_xlate_iova(s, ws.drop_last(), k);
        assert(ws.drop_last()[k] == ws[k]);
        assert(!pre(s, ws[n], "iova="@));
    }
}

fn parse_xlate_args(s: &[u8], r: (usize, usize)) -> (a: XlateArgs)
    requires
        r.0 <= r.1 <= s@.len(),
    ensures
        a == xlate_args(s@, words(s@, r.0 as int, r.1 as int)),
{
    let ws = words_of(s, r);
    let ghost all = words(s@, r.0 as int, r.1 as int);
    let mut a = XlateArgs { seg: None, bus: None, dev: None, func: None, iova: None };
    let mut i: usize = 0;
    while i < ws.len()
        invariant
            i <= ws@.len(),
            r.0 <= r.1 <= s@.len(),
            all == words(s@, r.0 as int, r.1 as int),
            ws@.len() == all.len(),
            forall|k: int| 0 <= k < ws@.len() ==> ((#[trigger] ws@[k]).0 as int, ws@[k].1 as int) == all[k],
            forall|k: int| 0 <= k < ws@.len() ==> r.0 <= (#[trigger] ws@[k]).0 <= ws@[k].1 <= r.1,
            a == xlate_args(s@, all.take(i as int)),
        decreases ws@.len() - i,
    {
        let t = ws[i];
        proof {
            assert(all.take(i + 1).drop_last() =~= all.take(i as int));
            assert(all.take(i + 1).last() == (t.0 as int, t.1 as int));
        }
        if pfx(s, t, "bdf=") {
            let v = (t.0 + word_len("bdf="), t.1);
            if let (Some(p0), Some(p1), Some(df)) = (piece_of(s, v, ':', 0), piece_of(s, v, ':', 1), piece_of(s, v, ':', 2)) {
                if let (Some(d), Some(f)) = (piece_of(s, df, '.', 0), piece_of(s, df, '.', 1)) {
                    a = XlateArgs { seg: hex_u16(s, p0), bus: hex_u8(s, p1), dev: hex_u8(s, d), func: hex_u8(s, f), iova: a.iova };
                }
            }
        }
        if pfx(s, t, "iova=") {
            let v = (t.0 + word_len("iova="), t.1);
            a = XlateArgs { seg: a.seg, bus: a.bus, dev: a.dev, func: a.func, iova: hex_u64_marked(s, v) };
        }
        i = i + 1;
    }
    proof { assert(all.take(ws@.len() as int) =~= all); }
    a
}

/// The keyword arguments of `dom map` and `dom unmap`.
#[derive(Clone, Copy, Debug, PartialEq, Eq, Structural)]
pub struct MapArgs {
    pub domid: Option<u16>,
    pub iova: Option<u64>,
    pub pa: Option<u64>,
    pub len: Option<u64>,
    pub r: bool,
    pub w: bool,
    pub x: bool,
}

pub open spec fn no_map_args() -> MapArgs {
    MapArgs { domid: None, iova: None, pa: None, len: None, r: false, w: false, x: false }
}

/// One word of `dom map`: `dom=<dec>`, `iova=`, `pa=`, `len=` (hexadecimal)
/// and `perm=` (the letters r, w, x it holds); `unmap` reads only `dom=`,
/// `iova=` and `len=`.
pub open spec fn map_word(s: Seq<u8>, a: MapArgs, t: (int, int), with_pa_perm: bool) -> MapArgs {
    if pre(s, t, "dom="@) {
        MapArgs { domid: opt16(dec(s, after(t, "dom="@), 0xFFFF)), ..a }
    } else if pre(s, t, "iova="@) {
        MapArgs { iova: hex64_marked(s, after(t, "iova="@)), ..a }
    } else if with_pa_perm && pre(s, t, "pa="@) {
        MapArgs { pa: hex64_marked(s, after(t, "pa="@)), ..a }
    } else if pre(s, t, "len="@) {
        MapArgs { len: hex64_marked(s, after(t, "len="@)), ..a }
    } else if with_pa_perm && pre(s, t, "perm="@) {
        let v = after(t, "perm="@);
        MapArgs {
            r: holds_byte(s, v.0, v.1, 'r' as u8),
            w: holds_byte(s, v.0, v.1, 'w' as u8),
            x: holds_byte(s, v.0, v.1, 'x' as u8),
            ..a
        }
    } else {
        a
    }
}

pub open spec fn map_args(s: Seq<u8>, ws: Seq<(int, int)>, with_pa_perm: bool) -> MapArgs
    decreases ws.len(),
{
    if ws.len() == 0 {
        no_map_args()
    } else {
        map_word(s, map_args(s, ws.drop_last(), with_pa_perm), ws.last(), with_pa_perm)
    }
}

/// A word that starts with `perm=` starts with none of the other keywords of
/// `dom map`.
proof fn lemma_perm_word(s: Seq<u8>, t: (int, int))
    requires
        pre(s, t, "perm="@),
    ensures
        !pre(s, t, "dom="@),
        !pre(s, t, "iova="@),
        !pre(s, t, "pa="@),
        !pre(s, t, "len="@),
        after(t, "perm="@) == (t.0 + 5, t.1),
{
    reveal_strlit("perm=");
    reveal_strlit("dom=");
    reveal_strlit("iova=");
    reveal_strlit("pa=");
    reveal_strlit("len=");
    assert(s[t.0 + 0] == ("perm="@[0] as u8));
    assert(s[t.0 + 1] == ("perm="@[1] as u8));
}

/// The keywords of `dom map` exclude one another: a word that starts with one
/// starts with none of those tested before it.
proof fn lemma_key_words(s: Seq<u8>, t: (int, int))
    ensures
        pre(s, t, "iova="@) ==> !pre(s, t, "dom="@),
        pre(s, t, "pa="@) ==> !pre(s, t, "dom="@) && !pre(s, t, "iova="@),
        pre(s, t, "len="@) ==> !pre(s, t, "dom="@) && !pre(s, t, "iova="@) && !pre(s, t, "pa="@),
        after(t, "dom="@) == (t.0 + 4, t.1),
        after(t, "iova="@) == (t.0 + 5, t.1),
        after(t, "pa="@) == (t.0 + 3, t.1),
        after(t, "len="@) == (t.0 + 4, t.1),
{
    reveal_strlit("dom=");
    reveal_strlit("iova=");
    reveal_strlit("pa=");
    reveal_strlit("len=");
    if pre(s, t, "iova="@) {
        assert(s[t.0 + 0] == ("iova="@[0] as u8));
    }
    if pre(s, t, "pa="@) {
        assert(s[t.0 + 0] == ("pa="@[0] as u8));
    }
    if pre(s, t, "len="@) {
        assert(s[t.0 + 0] == ("len="@[0] as u8));
    }
}

/// The last word of a `dom map` (or `dom unmap`) command with a keyword sets
/// that keyword's field from its value, whatever the other words say:
/// `dom=` the domain as a decimal number, `iova=` and `len=` (and `pa=` for
/// `map`) as hexadecimal ones.
pub proof fn law_map_fields(s: Seq<u8>, ws: Seq<(int, int)>, k: int, with_pa_perm: bool)
    requires
        0 <= k < ws.len(),
    ensures
        pre(s, ws[k], "dom="@) && (forall|j: int| k < j < ws.len() ==> !pre(s, #[trigger] ws[j], "dom="@))
            ==> map_args(s, ws, with_pa_perm).domid == opt16(dec(s, (ws[k].0 + 4, ws[k].1), 0xFFFF)),
        pre(s, ws[k], "iova="@) && (forall|j: int| k < j < ws.len() ==> !pre(s, #[trigger] ws[j], "iova="@))
            ==> map_args(s, ws, with_pa_perm).iova == hex64_marked(s, (ws[k].0 + 5, ws[k].1)),
        with_pa_perm && pre(s, ws[k], "pa="@) && (forall|j: int| k < j < ws.len() ==> !pre(s, #[trigger] ws[j], "pa="@))
            ==> map_args(s, ws, with_pa_perm).pa == hex64_marked(s, (ws[k].0 + 3, ws[k].1)),
        pre(s, ws[k], "len="@) && (forall|j: int| k < j < ws.len() ==> !pre(s, #[trigger] ws[j], "len="@))
            ==> map_args(s, ws, with_pa_perm).len == hex64_marked(s, (ws[k].0 + 4, ws[k].1)),
    decreases ws.len(),
{
    let n = ws.len() - 1;
    lemma_key_words(s, ws[n]);
    if k < n {
        law_map_fields(s, ws.drop_last(), k, with_pa_perm);
        assert(ws.drop_last()[k] == ws[k]);
        assert forall|j: int| k < j < ws.drop_last().len() implies ws.drop_last()[j] == #[trigger] ws[j] by {}
    }
}

/// With `perm=` words in a `dom map` command, the last of them sets the
/// permissions: read, write and execute are each granted exactly when the
/// letter r, w or x occurs in its value.
pub proof fn law_map_perm(s: Seq<u8>, ws: Seq<(int, int)>, k: int)
    requires
        0 <= k < ws.len(),
        pre(s, ws[k], "perm="@),
        forall|j: int| k < j < ws.len() ==> !pre(s, #[trigger] ws[j], "perm="@),
    ensures
        map_args(s, ws, true).r == (exists|i: int| ws[k].0 + 5 <= i < ws[k].1 && s[i] == 0x72u8),
        map_args(s, ws, true).w == (exists|i: int| ws[k].0 + 5 <= i < ws[k].1 && s[i] == 0x77u8),
        map_args(s, ws, true).x == (exists|i: int| ws[k].0 + 5 <= i < ws[k].1 && s[i] == 0x78u8),
    decreases ws.len(),
{
    let n = ws.len() - 1;
    let t = ws[n];
    if k == n {
        lemma_perm_word(s, t);
    } else {
        law_map_perm(s, ws.drop_last(), k);
        assert(ws.drop_last()[k] == ws[k]);
        assert(!pre(s, ws[n], "perm="@));
    }
}

/// Without a `perm=` word a `dom map` grants nothing: read, write and execute
/// all stay off.
pub proof fn law_map_no_perm(s: Seq<u8>, ws: Seq<(int, int)>)
    requires
        forall|j: int| 0 <= j < ws.len() ==> !pre(s, #[trigger] ws[j], "perm="@),
    ensures
        !map_args(s, ws, true).r,
        !map_args(s, ws, true).w,
        !map_args(s, ws, true).x,
    decreases ws.len(),
{
    if ws.len() > 0 {
        let n = ws.len() - 1;
        assert(!pre(s, ws[n], "perm="@));
        assert forall|j: int| 0 <= j < ws.drop_last().len() implies !pre(s, #[trigger] ws.drop_last()[j], "perm="@) by {
            assert(ws.drop_last()[j] == ws[j]);
        }
        law_map_no_perm(s, ws.drop_last());
    }
}

fn parse_map_args(s: &[u8], r: (usize, usize), with_pa_perm: bool) -> (a: MapArgs)
    requires
        r.0 <= r.1 <= s@.len(),
    ensures
        a == map_args(s@, words(s@, r.0 as int, r.1 as int), with_pa_perm),
{
    let ws = words_of(s, r);
    let ghost all = words(s@, r.0 as int, r.1 as int);
    let mut a = MapArgs { domid: None, iova: None, pa: None, len: None, r: false, w: false, x: false };
    let mut i: usize = 0;
    while i < ws.len()
        invariant
            i <= ws@.len(),
            r.0 <= r.1 <= s@.len(),
            all == words(s@, r.0 as int, r.1 as int),
            ws@.len() == all.len(),
            forall|k: int| 0 <= k < ws@.len() ==> ((#[trigger] ws@[k]).0 as int, ws@[k].1 as int) == all[k],
            forall|k: int| 0 <= k < ws@.len() ==> r.0 <= (#[trigger] ws@[k]).0 <= ws@[k].1 <= r.1,
            a == map_args(s@, all.take(i as int), with_pa_perm),
        decreases ws@.len() - i,
    {
        let t = ws[i];
        proof {
            assert(all.take(i + 1).drop_last() =~= all.take(i as int));
            assert(all.take(i + 1).last() == (t.0 as int, t.1 as int));
        }
        if pfx(s, t, "dom=") {
            a = MapArgs { domid: dec_u16(s, (t.0 + word_len("dom="), t.1)), ..a };
        } else if pfx(s, t, "iova=") {
            a = MapArgs { iova: hex_u64_marked(s, (t.0 + word_len("iova="), t.1)), ..a };
        } else if with_pa_perm && pfx(s, t, "pa=") {
            a = MapArgs { pa: hex_u64_marked(s, (t.0 + word_len("pa="), t.1)), ..a };
        } else if pfx(s, t, "len=") {
            a = MapArgs { len: hex_u64_marked(s, (t.0 + word_len("len="), t.1)), ..a };
        } else if with_pa_perm && pfx(s, t, "perm=") {
            let v0 = t.0 + word_len("perm=");
            a = MapArgs {
                r: contains(s, v0, t.1, 'r' as u8),
                w: contains(s, v0, t.1, 'w' as u8),
                x: contains(s, v0, t.1, 'x' as u8),
                ..a
            };
        }
        i = i + 1;
    }
    proof { assert(all.take(ws@.len() as int) =~= all); }
    a
}

/// The arguments of `logs filter`: severity and category range.
#[derive(Clone, Copy, Debug, PartialEq, Eq, Structural)]
pub struct FilterArgs {
    pub level: u8,
    pub cat_lo: usize,
    pub cat_hi: usize,
}

/// One word of `logs filter`: `level=warn` (1), `level=error` (2), any other
/// `level=` (0); `cat=<text>` names the category.
pub open spec fn filter_word(s: Seq<u8>, a: FilterArgs, t: (int, int)) -> FilterArgs {
    if pre(s, t, "level="@) {
        let v = after(t, "level="@);
        FilterArgs { level: if ic(s, v, "warn"@) { 1 } else if ic(s, v, "error"@) { 2 } else { 0 }, ..a }
    } else if pre(s, t, "cat="@) {
        FilterArgs { cat_lo: (t.0 + "cat="@.len()) as usize, cat_hi: t.1 as usize, ..a }
    } else {
        a
    }
}

pub open spec fn filter_args(s: Seq<u8>, ws: Seq<(int, int)>) -> FilterArgs
    decreases ws.len(),
{
    if ws.len() == 0 {
        FilterArgs { level: 0, cat_lo: 0, cat_hi: 0 }
    } else {
        filter_word(s, filter_args(s, ws.drop_last()), ws.last())
    }
}

/// The last `level=` word of `logs filter` sets the severity: 1 for `warn`,
/// 2 for `error` (in any case), 0 for anything else; the last `cat=` word
/// names the category by the text after `cat=`.
pub proof fn law_filter_words(s: Seq<u8>, ws: Seq<(int, int)>, k: int)
    requires
        0 <= k < ws.len(),
        0 <= ws[k].0 && ws[k].1 <= usize::MAX,
    ensures
        pre(s, ws[k], "level="@) && (forall|j: int| k < j < ws.len() ==> !pre(s, #[trigger] ws[j], "level="@))
            ==> filter_args(s, ws).level == (if is_word_ic(s, ws[k].0 + 6, ws[k].1, "warn"@) { 1u8 }
                else if is_word_ic(s, ws[k].0 + 6, ws[k].1, "error"@) { 2u8 } else { 0u8 }),
        pre(s, ws[k], "cat="@) && (forall|j: int| k < j < ws.len() ==> !pre(s, #[trigger] ws[j], "cat="@))
            ==> filter_args(s, ws).cat_lo == ws[k].0 + 4 && filter_args(s, ws).cat_hi == ws[k].1,
    decreases ws.len(),
{
    reveal_strlit("level=");
    reveal_strlit("cat=");
    let n = ws.len() - 1;
    let t = ws[n];
    if pre(s, t, "cat="@) {
        assert(s[t.0 + 0] == ("cat="@[0] as u8));
    }
    if pre(s, ws[k], "cat="@) {
        assert(ws[k].0 + 4 <= ws[k].1);
    }
    if k < n {
        law_filter_words(s, ws.drop_last(), k);
        assert(ws.drop_last()[k] == ws[k]);
        assert forall|j: int| k < j < ws.drop_last().len() implies ws.drop_last()[j] == #[trigger] ws[j] by {}
    }
}

fn parse_filter_args(s: &[u8], r: (usize, usize)) -> (a: FilterArgs)
    requires
        r.0 <= r.1 <= s@.len(),
    ensures
        a == filter_args(s@, words(s@, r.0 as int, r.1 as int)),
{
    let ws = words_of(s, r);
    let ghost all = words(s@, r.0 as int, r.1 as int);
    let mut a = FilterArgs { level: 0, cat_lo: 0, cat_hi: 0 };
    let mut i: usize = 0;
    while i < ws.len()
        invariant
            i <= ws@.len(),
            r.0 <= r.1 <= s@.len(),
            all == words(s@, r.0 as int, r.1 as int),
            ws@.len() == all.len(),
            forall|k: int| 0 <= k < ws@.len() ==> ((#[trigger] ws@[k]).0 as int, ws@[k].1 as int) == all[k],
            forall|k: int| 0 <= k < ws@.len() ==> r.0 <= (#[trigger] ws@[k]).0 <= ws@[k].1 <= r.1,
            a == filter_args(s@, all.take(i as int)),
        decreases ws@.len() - i,
    {
        let t = ws[i];
        proof {
            assert(all.take(i + 1).drop_last() =~= all.take(i as int));
            assert(all.take(i + 1).last() == (t.0 as int, t.1 as int));
        }
        if pfx(s, t, "level=") {
            let v = (t.0 + word_len("level="), t.1);
            let level: u8 = if eqw(s, v, "warn") { 1 } else if eqw(s, v, "error") { 2 } else { 0 };
            a = FilterArgs { level, ..a };
        } else if pfx(s, t, "cat=") {
            a = FilterArgs { cat_lo: t.0 + word_len("cat="), cat_hi: t.1, ..a };
        }
        i = i + 1;
    }
    proof { assert(all.take(ws@.len() as int) =~= all); }
    a
}

/// One word of `pci find`: `vid=` and `did=` in hexadecimal.
pub open spec fn find_word(s: Seq<u8>, a: (Option<u16>, Option<u16>), t: (int, int)) -> (Option<u16>, Option<u16>) {
    if pre(s, t, "vid="@) {
        (hex16_marked(s, after(t, "vid="@)), a.1)
    } else if pre(s, t, "did="@) {
        (a.0, hex16_marked(s, after(t, "did="@)))
    } else {
        a
    }
}

pub open spec fn find_args(s: Seq<u8>, ws: Seq<(int, int)>) -> (Option<u16>, Option<u16>)
    decreases ws.len(),
{
    if ws.len() == 0 {
        (None, None)
    } else {
        find_word(s, find_args(s, ws.drop_last()), ws.last())
    }
}

fn parse_find_args(s: &[u8], r: (usize, usize)) -> (a: (Option<u16>, Option<u16>))
    requires
        r.0 <= r.1 <= s@.len(),
    ensures
        a == find_args(s@, words(s@, r.0 as int, r.1 as int)),
{
    let ws = words_of(s, r);
    let ghost all = words(s@, r.0 as int, r.1 as int);
    let mut a: (Option<u16>, Option<u16>) = (None, None);
    let mut i: usize = 0;
    while i < ws.len()
        invariant
            i <= ws@.len(),
            r.0 <= r.1 <= s@.len(),
            all == words(s@, r.0 as int, r.1 as int),
            ws@.len() == all.len(),
            forall|k: int| 0 <= k < ws@.len() ==> ((#[trigger] ws@[k]).0 as int, ws@[k].1 as int) == all[k],
            forall|k: int| 0 <= k < ws@.len() ==> r.0 <= (#[trigger] ws@[k]).0 <= ws@[k].1 <= r.1,
            a == find_args(s@, all.take(i as int)),
        decreases ws@.len() - i,
    {
        let t = ws[i];
        proof {
            assert(all.take(i + 1).drop_last() =~= all.take(i as int));
            assert(all.take(i + 1).last() == (t.0 as int, t.1 as int));
        }
        if pfx(s, t, "vid=") {
            a = (hex_u16_marked(s, (t.0 + word_len("vid="), t.1)), a.1);
        } else if pfx(s, t, "did=") {
            a = (a.0, hex_u16_marked(s, (t.0 + word_len("did="), t.1)));
        }
        i = i + 1;
    }
    proof { assert(all.take(ws@.len() as int) =~= all); }
    a
}

// ---------------------------------------------------------------------------
// The grammar

/// A number of `pci class`: hexadecimal after "0x", decimal otherwise.
pub open spec fn class_num(s: Seq<u8>, t: (int, int)) -> Option<u32> {
    if pre(s, t, "0x"@) {
        opt32(hex(s, after(t, "0x"@), 0xFFFF_FFFF))
    } else {
        opt32(dec(s, t, 0xFFFF_FFFF))
    }
}

fn parse_class_num(s: &[u8], t: (usize, usize)) -> (v: Option<u32>)
    requires
        t.0 <= t.1 <= s@.len(),
    ensures
        v == class_num(s@, (t.0 as int, t.1 as int)),
{
    let r = if pfx(s, t, "0x") {
        parse_num(s, t.0 + word_len("0x"), t.1, 16, 0xFFFF_FFFF)
    } else {
        parse_num(s, t.0, t.1, 10, 0xFFFF_FFFF)
    };
    match r {
        Some(n) => Some(n as u32),
        None => None,
    }
}

/// Where ` unassign` stands in `dom <bdf> unassign`: its first occurrence
/// followed by a space, or else at the very end.
pub open spec fn unassign_at(s: Seq<u8>, rest: (int, int)) -> Option<int> {
    if find_from(s, rest.0, rest.1, " unassign "@) is Some {
        find_from(s, rest.0, rest.1, " unassign "@)
    } else if rest.1 - rest.0 >= 9 && pre(s, (rest.1 - 9, rest.1), " unassign"@) {
        Some(rest.1 - 9)
    } else {
        None
    }
}

/// `dom ...`, with `rest` the text after "dom ".
pub open spec fn dom_command(s: Seq<u8>, rest: (int, int)) -> Command {
    let d = trimmed(s, after(rest, "destroy "@));
    let p = trimmed(s, after(rest, "purge "@));
    if pre(s, rest, "destroy "@) && dec(s, d, 0xFFFF) is Some {
        Command::DomDestroy(dec(s, d, 0xFFFF).unwrap() as u16)
    } else if pre(s, rest, "purge "@) && dec(s, p, 0xFFFF) is Some {
        Command::DomPurge(dec(s, p, 0xFFFF).unwrap() as u16)
    } else if ic(s, rest, "new"@) {
        Command::DomNew
    } else if find_from(s, rest.0, rest.1, " assign "@) is Some {
        let i = find_from(s, rest.0, rest.1, " assign "@).unwrap();
        match (bdf_trimmed(s, (rest.0, i)), dec(s, trimmed(s, (i + " assign "@.len(), rest.1)), 0xFFFF)) {
            (Some(b), Some(id)) => Command::DomAssign { seg: b.0, bus: b.1, dev: b.2, func: b.3, domid: id as u16 },
            _ => Command::DomIncomplete,
        }
    } else if unassign_at(s, rest) is Some {
        let i = unassign_at(s, rest).unwrap();
        match bdf_trimmed(s, (rest.0, i)) {
            Some(b) => Command::DomUnassign { seg: b.0, bus: b.1, dev: b.2, func: b.3 },
            None => Command::DomIncomplete,
        }
    } else if ic(s, rest, "list"@) {
        Command::DomList
    } else if find_from(s, rest.0, rest.1, " map "@) is Some {
        let i = find_from(s, rest.0, rest.1, " map "@).unwrap();
        let m = map_args(s, words(s, i + " map "@.len(), rest.1), true);
        match (m.domid, m.iova, m.pa, m.len) {
            (Some(a), Some(b), Some(c), Some(d)) => Command::DomMap { domid: a, iova: b, pa: c, len: d, r: m.r, w: m.w, x: m.x },
            _ => Command::DomIncomplete,
        }
    } else if find_from(s, rest.0, rest.1, " unmap "@) is Some {
        let i = find_from(s, rest.0, rest.1, " unmap "@).unwrap();
        let m = map_args(s, words(s, i + " unmap "@.len(), rest.1), false);
        match (m.domid, m.iova, m.len) {
            (Some(a), Some(b), Some(d)) => Command::DomUnmap { domid: a, iova: b, len: d },
            _ => Command::DomIncomplete,
        }
    } else if ic(s, rest, "dump"@) {
        Command::DomDump
    } else if ic(s, rest, "mappings"@) {
        Command::DomMappings
    } else {
        Command::Usage(Usage::Dom)
    }
}

fn parse_dom(s: &[u8], rest: (usize, usize)) -> (c: Command)
    requires
        rest.0 <= rest.1 <= s@.len(),
    ensures
        c == dom_command(s@, (rest.0 as int, rest.1 as int)),
{
    if pfx(s, rest, "destroy ") {
        if let Some(id) = dec_u16(s, trimr(s, (rest.0 + word_len("destroy "), rest.1))) {
            return Command::DomDestroy(id);
        }
    }
    if pfx(s, rest, "purge ") {
        if let Some(id) = dec_u16(s, trimr(s, (rest.0 + word_len("purge "), rest.1))) {
            return Command::DomPurge(id);
        }
    }
    if eqw(s, rest, "new") {
        return Command::DomNew;
    }
    if let Some(i) = find(s, rest.0, rest.1, " assign ") {
        let b = parse_bdf_trimmed(s, (rest.0, i));
        let id = dec_u16(s, trimr(s, (i + word_len(" assign "), rest.1)));
        return match (b, id) {
            (Some(b), Some(id)) => Command::DomAssign { seg: b.0, bus: b.1, dev: b.2, func: b.3, domid: id },
            _ => Command::DomIncomplete,
        };
    }
    let ua = match find(s, rest.0, rest.1, " unassign ") {
        Some(i) => Some(i),
        None => if rest.1 - rest.0 >= 9 && pfx(s, (rest.1 - 9, rest.1), " unassign") { Some(rest.1 - 9) } else { None },
    };
    if let Some(i) = ua {
        return match parse_bdf_trimmed(s, (rest.0, i)) {
            Some(b) => Command::DomUnassign { seg: b.0, bus: b.1, dev: b.2, func: b.3 },
            None => Command::DomIncomplete,
        };
    }
    if eqw(s, rest, "list") {
        return Command::DomList;
    }
    if let Some(i) = find(s, rest.0, rest.1, " map ") {
        let m = parse_map_args(s, (i + word_len(" map "), rest.1), true);
        return match (m.domid, m.iova, m.pa, m.len) {
            (Some(a), Some(b), Some(c), Some(d)) => Command::DomMap { domid: a, iova: b, pa: c, len: d, r: m.r, w: m.w, x: m.x },
            _ => Command::DomIncomplete,
        };
    }
    if let Some(i) = find(s, rest.0, rest.1, " unmap ") {
        let m = parse_map_args(s, (i + word_len(" unmap "), rest.1), false);
        return match (m.domid, m.iova, m.len) {
            (Some(a), Some(b), Some(d)) => Command::DomUnmap { domid: a, iova: b, len: d },
            _ => Command::DomIncomplete,
        };
    }
    if eqw(s, rest, "dump") {
        return Command::DomDump;
    }
    if eqw(s, rest, "mappings") {
        return Command::DomMappings;
    }
    Command::Usage(Usage::Dom)
}

/// `iommu xlate` and `iommu walk` once their words are read.
pub open spec fn xlate_command(a: XlateArgs, walk: bool) -> Command {
    match (a.seg, a.bus, a.dev, a.func, a.iova) {
        (Some(seg), Some(bus), Some(dev), Some(func), Some(iova)) => if walk {
            Command::IommuWalk { seg, bus, dev, func, iova }
        } else {
            Command::IommuXlate { seg, bus, dev, func, iova }
        },
        _ => Command::Usage(if walk { Usage::IommuWalk } else { Usage::IommuXlate }),
    }
}

/// `iommu te <index> <on|off>`.
pub open spec fn te_command(s: Seq<u8>, r: (int, int)) -> Command {
    let ws = words(s, r.0, r.1);
    if ws.len() >= 2 && dec(s, ws[0], usize::MAX as nat) is Some {
        Command::IommuTe { index: dec(s, ws[0], usize::MAX as nat).unwrap() as usize, on: ic(s, ws[1], "on"@) }
    } else {
        Command::Usage(Usage::IommuTe)
    }
}

/// The `iommu` commands; the rest go on to [`misc_command`].
pub open spec fn iommu_command(s: Seq<u8>, c: (int, int)) -> Command {
    if ic(s, c, "iommu"@) || ic(s, c, "iommu info"@) {
        Command::IommuInfo
    } else if ic(s, c, "iommu amdv enable"@) {
        Command::AmdvEnable
    } else if ic(s, c, "iommu amdv disable"@) {
        Command::AmdvDisable
    } else if ic(s, c, "iommu summary"@) {
        Command::IommuSummary
    } else if ic(s, c, "iommu stats"@) {
        Command::IommuStats
    } else if ic(s, c, "iommu enable"@) {
        Command::IommuEnable
    } else if ic(s, c, "iommu disable"@) {
        Command::IommuDisable
    } else if ic(s, c, "iommu plan"@) {
        Command::IommuPlan
    } else if pre(s, c, "iommu plan dom="@) {
        match dec(s, trimmed(s, after(c, "iommu plan dom="@)), 0xFFFF) {
            Some(v) => Command::IommuPlanDom(v as u16),
            None => Command::Usage(Usage::IommuPlanDom),
        }
    } else if ic(s, c, "iommu units"@) {
        Command::IommuUnits
    } else if pre(s, c, "iommu te "@) {
        te_command(s, trimmed(s, after(c, "iommu te "@)))
    } else if pre(s, c, "iommu lsctx "@) {
        match hex(s, trimmed(s, after(c, "iommu lsctx "@)), 0xFF) {
            Some(v) => Command::IommuLsctx(v as u8),
            None => Command::Usage(Usage::IommuLsctx),
        }
    } else if ic(s, c, "iommu validate"@) {
        Command::IommuValidate
    } else if ic(s, c, "iommu verify"@) {
        Command::IommuVerify
    } else if ic(s, c, "iommu verify-map"@) {
        Command::IommuVerifyMap
    } else if pre(s, c, "iommu xlate "@) {
        let r = trimmed(s, after(c, "iommu xlate "@));
        xlate_command(xlate_args(s, words(s, r.0, r.1)), false)
    } else if pre(s, c, "iommu walk "@) {
        let r = trimmed(s, after(c, "iommu walk "@));
        xlate_command(xlate_args(s, words(s, r.0, r.1)), true)
    } else if ic(s, c, "iommu apply"@) {
        Command::IommuApply
    } else if ic(s, c, "iommu apply-refresh"@) {
        Command::IommuApplyRefresh
    } else if ic(s, c, "iommu apply-safe"@) {
        Command::IommuApplySafe
    } else if ic(s, c, "iommu sync"@) {
        Command::IommuSync
    } else if ic(s, c, "iommu invalidate"@) {
        Command::IommuInvalidate
    } else if pre(s, c, "iommu invalidate dom="@) {
        match dec(s, trimmed(s, after(c, "iommu invalidate dom="@)), 0xFFFF) {
            Some(v) => Command::IommuInvalidateDom(v as u16),
            None => Command::Usage(Usage::IommuInvalidateDom),
        }
    } else if pre(s, c, "iommu invalidate bdf="@) {
        match bdf_plain(s, trimmed(s, after(c, "iommu invalidate bdf="@))) {
            Some(b) => Command::IommuInvalidateBdf { seg: b.0, bus: b.1, dev: b.2, func: b.3 },
            None => Command::Usage(Usage::IommuInvalidateBdf),
        }
    } else if ic(s, c, "iommu hard-invalidate"@) {
        Command::IommuHardInvalidate
    } else if ic(s, c, "iommu fsts"@) {
        Command::IommuFsts
    } else if ic(s, c, "iommu fclear"@) {
        Command::IommuFclear
    } else if pre(s, c, "iommu root "@) {
        match hex(s, trimmed(s, after(c, "iommu root "@)), 0xFF) {
            Some(v) => Command::IommuRoot(v as u8),
            None => Command::Usage(Usage::IommuRoot),
        }
    } else if pre(s, c, "iommu dump "@) {
        match bus_devfn(s, trimmed(s, after(c, "iommu dump "@))) {
            Some(b) => Command::IommuDump { bus: b.0, dev: b.1, func: b.2 },
            None => Command::Usage(Usage::IommuDump),
        }
    } else {
        misc_command(s, c)
    }
}

fn after_pfx(s: &[u8], c: (usize, usize), p: &str) -> (r: (usize, usize))
    requires
        c.0 <= c.1 <= s@.len(),
        pre(s@, (c.0 as int, c.1 as int), p@),
    ensures
        (r.0 as int, r.1 as int) == after((c.0 as int, c.1 as int), p@),
        r.0 <= r.1 <= s@.len(),
{
    (c.0 + word_len(p), c.1)
}

fn parse_te(s: &[u8], r: (usize, usize)) -> (c: Command)
    requires
        r.0 <= r.1 <= s@.len(),
    ensures
        c == te_command(s@, (r.0 as int, r.1 as int)),
{
    let ws = words_of(s, r);
    if ws.len() >= 2 {
        if let Some(i) = parse_num(s, ws[0].0, ws[0].1, 10, usize::MAX as u64) {
            let on = eqw(s, ws[1], "on");
            return Command::IommuTe { index: i as usize, on };
        }
    }
    Command::Usage(Usage::IommuTe)
}

fn parse_iommu(s: &[u8], c: (usize, usize)) -> (r: Command)
    requires
        c.0 <= c.1 <= s@.len(),
    ensures
        r == iommu_command(s@, (c.0 as int, c.1 as int)),
{
    if eqw(s, c, "iommu") || eqw(s, c, "iommu info") {
        return Command::IommuInfo;
    }
    if eqw(s, c, "iommu amdv enable") { return Command::AmdvEnable; }
    if eqw(s, c, "iommu amdv disable") { return Command::AmdvDisable; }
    if eqw(s, c, "iommu summary") { return Command::IommuSummary; }
    if eqw(s, c, "iommu stats") { return Command::IommuStats; }
    if eqw(s, c, "iommu enable") { return Command::IommuEnable; }
    if eqw(s, c, "iommu disable") { return Command::IommuDisable; }
    if eqw(s, c, "iommu plan") { return Command::IommuPlan; }
    if pfx(s, c, "iommu plan dom=") {
        return match dec_u16(s, trimr(s, after_pfx(s, c, "iommu plan dom="))) {
            Some(v) => Command::IommuPlanDom(v),
            None => Command::Usage(Usage::IommuPlanDom),
        };
    }
    if eqw(s, c, "iommu units") { return Command::IommuUnits; }
    if pfx(s, c, "iommu te ") {
        return parse_te(s, trimr(s, after_pfx(s, c, "iommu te ")));
    }
    if pfx(s, c, "iommu lsctx ") {
        return match hex_u8(s, trimr(s, after_pfx(s, c, "iommu lsctx "))) {
            Some(v) => Command::IommuLsctx(v),
            None => Command::Usage(Usage::IommuLsctx),
        };
    }
    if eqw(s, c, "iommu validate") { return Command::IommuValidate; }
    if eqw(s, c, "iommu verify") { return Command::IommuVerify; }
    if eqw(s, c, "iommu verify-map") { return Command::IommuVerifyMap; }
    if pfx(s, c, "iommu xlate ") {
        let a = parse_xlate_args(s, trimr(s, after_pfx(s, c, "iommu xlate ")));
        return match (a.seg, a.bus, a.dev, a.func, a.iova) {
            (Some(seg), Some(bus), Some(dev), Some(func), Some(iova)) => Command::IommuXlate { seg, bus, dev, func, iova },
            _ => Command::Usage(Usage::IommuXlate),
        };
    }
    if pfx(s, c, "iommu walk ") {
        let a = parse_xlate_args(s, trimr(s, after_pfx(s, c, "iommu walk ")));
        return match (a.seg, a.bus, a.dev, a.func, a.iova) {
            (Some(seg), Some(bus), Some(dev), Some(func), Some(iova)) => Command::IommuWalk { seg, bus, dev, func, iova },
            _ => Command::Usage(Usage::IommuWalk),
        };
    }
    if eqw(s, c, "iommu apply") { return Command::IommuApply; }
    if eqw(s, c, "iommu apply-refresh") { return Command::IommuApplyRefresh; }
    if eqw(s, c, "iommu apply-safe") { return Command::IommuApplySafe; }
    if eqw(s, c, "iommu sync") { return Command::IommuSync; }
    if eqw(s, c, "iommu invalidate") { return Command::IommuInvalidate; }
    if pfx(s, c, "iommu invalidate dom=") {
        return match dec_u16(s, trimr(s, after_pfx(s, c, "iommu invalidate dom="))) {
            Some(v) => Command::IommuInvalidateDom(v),
            None => Command::Usage(Usage::IommuInvalidateDom),
        };
    }
    if pfx(s, c, "iommu invalidate bdf=") {
        return match parse_bdf_plain(s, trimr(s, after_pfx(s, c, "iommu invalidate bdf="))) {
            Some(b) => Command::IommuInvalidateBdf { seg: b.0, bus: b.1, dev: b.2, func: b.3 },
            None => Command::Usage(Usage::IommuInvalidateBdf),
        };
    }
    if eqw(s, c, "iommu hard-invalidate") { return Command::IommuHardInvalidate; }
    if eqw(s, c, "iommu fsts") { return Command::IommuFsts; }
    if eqw(s, c, "iommu fclear") { return Command::IommuFclear; }
    if pfx(s, c, "iommu root ") {
        return match hex_u8(s, trimr(s, after_pfx(s, c, "iommu root "))) {
            Some(v) => Command::IommuRoot(v),
            None => Command::Usage(Usage::IommuRoot),
        };
    }
    if pfx(s, c, "iommu dump ") {
        return match parse_bus_devfn(s, trimr(s, after_pfx(s, c, "iommu dump "))) {
            Some(b) => Command::IommuDump { bus: b.0, dev: b.1, func: b.2 },
            None => Command::Usage(Usage::IommuDump),
        };
    }
    parse_misc(s, c)
}

/// `pci class <class> <subclass>`.
pub open spec fn class_command(s: Seq<u8>, r: (int, int)) -> Command {
    let ws = words(s, r.0, r.1);
    if ws.len() >= 2 && class_num(s, ws[0]) is Some && class_num(s, ws[1]) is Some {
        Command::PciClass(class_num(s, ws[0]).unwrap(), class_num(s, ws[1]).unwrap())
    } else {
        Command::Usage(Usage::PciClass)
    }
}

/// `time wait <usec> [busy|stall]`.
pub open spec fn wait_command(s: Seq<u8>, r: (int, int)) -> Command {
    let ws = words(s, r.0, r.1);
    if ws.len() >= 1 && dec(s, ws[0], 0xFFFF_FFFF_FFFF_FFFF) is Some {
        Command::TimeWait {
            usec: dec(s, ws[0], 0xFFFF_FFFF_FFFF_FFFF).unwrap() as u64,
            stall: ws.len() >= 2 && ic(s, ws[1], "stall"@),
        }
    } else {
        Command::Usage(Usage::TimeWait)
    }
}

/// `wdog`, with `r` the trimmed text after it.
pub open spec fn wdog_command(s: Seq<u8>, r: (int, int)) -> Command {
    if r.0 == r.1 {
        Command::WdogReport
    } else if ic(s, r, "off"@) {
        Command::WdogOff
    } else {
        match dec(s, r, usize::MAX as nat) {
            Some(v) => Command::WdogArm(v as usize),
            None => Command::Usage(Usage::Wdog),
        }
    }
}

/// Tracing, logs, dumps, language, watchdog, PCI, time and VM commands.
pub open spec fn misc_command(s: Seq<u8>, c: (int, int)) -> Command {
    if ic(s, c, "trace"@) {
        Command::Trace
    } else if ic(s, c, "trace clear"@) {
        Command::TraceClear
    } else if ic(s, c, "metrics"@) {
        Command::Metrics
    } else if ic(s, c, "metrics clear"@) {
        Command::MetricsClear
    } else if ic(s, c, "logs"@) {
        Command::Logs
    } else if pre(s, c, "logs filter "@) {
        let r = trimmed(s, after(c, "logs filter "@));
        let f = filter_args(s, words(s, r.0, r.1));
        Command::LogsFilter { level: f.level, cat_lo: f.cat_lo, cat_hi: f.cat_hi }
    } else if pre(s, c, "loglevel "@) {
        let r = trimmed(s, after(c, "loglevel "@));
        if ic(s, r, "info"@) {
            Command::LogLevel(Level::Info)
        } else if ic(s, r, "warn"@) {
            Command::LogLevel(Level::Warn)
        } else if ic(s, r, "error"@) {
            Command::LogLevel(Level::Error)
        } else {
            Command::Usage(Usage::LogLevel)
        }
    } else if pre(s, c, "dump "@) {
        let r = trimmed(s, after(c, "dump "@));
        if ic(s, r, "regs"@) {
            Command::DumpRegs
        } else if ic(s, r, "idt"@) {
            Command::DumpIdt
        } else if ic(s, r, "gdt"@) {
            Command::DumpGdt
        } else {
            Command::Usage(Usage::Dump)
        }
    } else if pre(s, c, "lang "@) {
        let r = trimmed(s, after(c, "lang "@));
        Command::SetLang(if ic(s, r, "en"@) {
            Some(Lang::En)
        } else if ic(s, r, "ja"@) {
            Some(Lang::Ja)
        } else if ic(s, r, "zh"@) {
            Some(Lang::Zh)
        } else {
            None
        })
    } else if ic(s, c, "sec"@) {
        Command::Sec
    } else if ic(s, c, "audit"@) {
        Command::Audit
    } else if pre(s, c, "wdog"@) {
        wdog_command(s, trimmed(s, after(c, "wdog"@)))
    } else if ic(s, c, "pci"@) {
        Command::Pci
    } else if pre(s, c, "pci class "@) {
        class_command(s, trimmed(s, after(c, "pci class "@)))
    } else if pre(s, c, "pci find "@) {
        let r = trimmed(s, after(c, "pci find "@));
        let a = find_args(s, words(s, r.0, r.1));
        Command::PciFind { vid: a.0, did: a.1 }
    } else if ic(s, c, "time"@) || ic(s, c, "time show"@) {
        Command::TimeShow
    } else if pre(s, c, "time wait "@) {
        wait_command(s, trimmed(s, after(c, "time wait "@)))
    } else if ic(s, c, "vm"@) {
        Command::Vm
    } else if ic(s, c, "vm pause"@) {
        Command::VmPause
    } else if ic(s, c, "vm resume"@) {
        Command::VmResume
    } else if pre(s, c, "vm "@) {
        let r = after(c, "vm "@);
        if ic(s, r, "new"@) {
            Command::VmNew
        } else if ic(s, r, "start"@) {
            Command::VmStart
        } else {
            Command::Usage(Usage::Vm)
        }
    } else {
        Command::Unknown
    }
}

fn parse_misc(s: &[u8], c: (usize, usize)) -> (r: Command)
    requires
        c.0 <= c.1 <= s@.len(),
    ensures
        r == misc_command(s@, (c.0 as int, c.1 as int)),
{
    if eqw(s, c, "trace") { return Command::Trace; }
    if eqw(s, c, "trace clear") { return Command::TraceClear; }
    if eqw(s, c, "metrics") { return Command::Metrics; }
    if eqw(s, c, "metrics clear") { return Command::MetricsClear; }
    if eqw(s, c, "logs") { return Command::Logs; }
    if pfx(s, c, "logs filter ") {
        let f = parse_filter_args(s, trimr(s, after_pfx(s, c, "logs filter ")));
        return Command::LogsFilter { level: f.level, cat_lo: f.cat_lo, cat_hi: f.cat_hi };
    }
    if pfx(s, c, "loglevel ") {
        let r = trimr(s, after_pfx(s, c, "loglevel "));
        if eqw(s, r, "info") { return Command::LogLevel(Level::Info); }
        if eqw(s, r, "warn") { return Command::LogLevel(Level::Warn); }
        if eqw(s, r, "error") { return Command::LogLevel(Level::Error); }
        return Command::Usage(Usage::LogLevel);
    }
    if pfx(s, c, "dump ") {
        let r = trimr(s, after_pfx(s, c, "dump "));
        if eqw(s, r, "regs") { return Command::DumpRegs; }
        if eqw(s, r, "idt") { return Command::DumpIdt; }
        if eqw(s, r, "gdt") { return Command::DumpGdt; }
        return Command::Usage(Usage::Dump);
    }
    if pfx(s, c, "lang ") {
        let r = trimr(s, after_pfx(s, c, "lang "));
        let l = if eqw(s, r, "en") {
            Some(Lang::En)
        } else if eqw(s, r, "ja") {
            Some(Lang::Ja)
        } else if eqw(s, r, "zh") {
            Some(Lang::Zh)
        } else {
            None
        };
        return Command::SetLang(l);
    }
    if eqw(s, c, "sec") { return Command::Sec; }
    if eqw(s, c, "audit") { return Command::Audit; }
    if pfx(s, c, "wdog") {
        let r = trimr(s, after_pfx(s, c, "wdog"));
        if r.0 == r.1 { return Command::WdogReport; }
        if eqw(s, r, "off") { return Command::WdogOff; }
        return match parse_num(s, r.0, r.1, 10, usize::MAX as u64) {
            Some(v) => Command::WdogArm(v as usize),
            None => Command::Usage(Usage::Wdog),
        };
    }
    if eqw(s, c, "pci") { return Command::Pci; }
    if pfx(s, c, "pci class ") {
        let r = trimr(s, after_pfx(s, c, "pci class "));
        let ws = words_of(s, r);
        if ws.len() >= 2 {
            if let (Some(a), Some(b)) = (parse_class_num(s, ws[0]), parse_class_num(s, ws[1])) {
                return Command::PciClass(a, b);
            }
        }
        return Command::Usage(Usage::PciClass);
    }
    if pfx(s, c, "pci find ") {
        let a = parse_find_args(s, trimr(s, after_pfx(s, c, "pci find ")));
        return Command::PciFind { vid: a.0, did: a.1 };
    }
    if eqw(s, c, "time") || eqw(s, c, "time show") { return Command::TimeShow; }
    if pfx(s, c, "time wait ") {
        let r = trimr(s, after_pfx(s, c, "time wait "));
        let ws = words_of(s, r);
        if ws.len() >= 1 {
            if let Some(us) = parse_num(s, ws[0].0, ws[0].1, 10, 0xFFFF_FFFF_FFFF_FFFF) {
                let stall = ws.len() >= 2 && eqw(s, ws[1], "stall");
                return Command::TimeWait { usec: us, stall };
            }
        }
        return Command::Usage(Usage::TimeWait);
    }
    if eqw(s, c, "vm") { return Command::Vm; }
    if eqw(s, c, "vm pause") { return Command::VmPause; }
    if eqw(s, c, "vm resume") { return Command::VmResume; }
    if pfx(s, c, "vm ") {
        let r = after_pfx(s, c, "vm ");
        if eqw(s, r, "new") { return Command::VmNew; }
        if eqw(s, r, "start") { return Command::VmStart; }
        return Command::Usage(Usage::Vm);
    }
    Command::Unknown
}

/// The command a line holds, read from the line without its surrounding
/// whitespace: `help`, `version`, `dom ...`, `quit`/`exit`, `info`, `virtio`,
/// then the `iommu` commands and the others.
pub open spec fn command_of(s: Seq<u8>) -> Command {
    let c = trim_range(s, 0, s.len() as int);
    if ic(s, c, "help"@) {
        Command::Help
    } else if ic(s, c, "version"@) {
        Command::Version
    } else if pre(s, c, "dom "@) {
        dom_command(s, after(c, "dom "@))
    } else if ic(s, c, "quit"@) || ic(s, c, "exit"@) {
        Command::Quit
    } else if ic(s, c, "info"@) {
        Command::Info
    } else if ic(s, c, "virtio"@) {
        Command::Virtio
    } else {
        iommu_command(s, c)
    }
}

/// Parse an input line.
pub fn parse_command(line: &[u8]) -> (r: Command)
    ensures
        r == command_of(line@),
{
    let c = trim(line, 0, line.len());
    if eqw(line, c, "help") { return Command::Help; }
    if eqw(line, c, "version") { return Command::Version; }
    if pfx(line, c, "dom ") {
        return parse_dom(line, after_pfx(line, c, "dom "));
    }
    if eqw(line, c, "quit") || eqw(line, c, "exit") { return Command::Quit; }
    if eqw(line, c, "info") { return Command::Info; }
    if eqw(line, c, "virtio") { return Command::Virtio; }
    parse_iommu(line, c)
}

} // verus!
