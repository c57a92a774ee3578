use zerovisor::ctl::cli::{edit_line, parse_command, Command, LineEdit, Usage};
use zerovisor::i18n::Lang;
use zerovisor::obs::log::Level;

fn p(s: &str) -> Command {
    parse_command(s.as_bytes())
}

#[test]
fn line_editing_appends_erases_and_completes() {
    let mut line = Vec::new();
    assert_eq!(edit_line(&mut line, 'h' as u16), LineEdit::Continue);
    assert_eq!(edit_line(&mut line, 'i' as u16), LineEdit::Continue);
    assert_eq!(edit_line(&mut line, 8), LineEdit::Continue);
    assert_eq!(line, b"h".to_vec());
    assert_eq!(edit_line(&mut line, 127), LineEdit::Continue);
    assert_eq!(edit_line(&mut line, 127), LineEdit::Continue);
    assert!(line.is_empty());
    assert_eq!(edit_line(&mut line, 0x3042), LineEdit::Continue);
    assert!(line.is_empty());
    assert_eq!(edit_line(&mut line, 'x' as u16), LineEdit::Continue);
    assert_eq!(edit_line(&mut line, 13), LineEdit::Done);
    assert_eq!(line, b"x".to_vec());
    assert_eq!(edit_line(&mut line, 10), LineEdit::Done);
}

#[test]
fn line_is_capped_at_eighty_bytes() {
    let mut line = Vec::new();
    for _ in 0..100 {
        edit_line(&mut line, 'a' as u16);
    }
    assert_eq!(line.len(), 80);
}

#[test]
fn simple_commands_ignore_case_and_surrounding_space() {
    assert_eq!(p("help"), Command::Help);
    assert_eq!(p("  HeLp \t"), Command::Help);
    assert_eq!(p("version"), Command::Version);
    assert_eq!(p("QUIT"), Command::Quit);
    assert_eq!(p("exit"), Command::Quit);
    assert_eq!(p("info"), Command::Info);
    assert_eq!(p("virtio"), Command::Virtio);
    assert_eq!(p("iommu"), Command::IommuInfo);
    assert_eq!(p("iommu info"), Command::IommuInfo);
    assert_eq!(p("trace clear"), Command::TraceClear);
    assert_eq!(p("metrics"), Command::Metrics);
    assert_eq!(p("sec"), Command::Sec);
    assert_eq!(p("time"), Command::TimeShow);
    assert_eq!(p("time show"), Command::TimeShow);
    assert_eq!(p("vm"), Command::Vm);
    assert_eq!(p("vm pause"), Command::VmPause);
    assert_eq!(p(""), Command::Unknown);
    assert_eq!(p("bogus"), Command::Unknown);
}

#[test]
fn dom_commands() {
    assert_eq!(p("dom new"), Command::DomNew);
    assert_eq!(p("dom destroy 7"), Command::DomDestroy(7));
    assert_eq!(p("dom purge  12 "), Command::DomPurge(12));
    assert_eq!(p("dom 0000:00:1f.3 assign 2"),
        Command::DomAssign { seg: 0, bus: 0, dev: 0x1f, func: 3, domid: 2 });
    assert_eq!(p("dom 1:2:3.4 unassign"), Command::DomUnassign { seg: 1, bus: 2, dev: 3, func: 4 });
    assert_eq!(p("dom 0:0:1.0 unassign "), Command::DomUnassign { seg: 0, bus: 0, dev: 1, func: 0 });
    assert_eq!(p("dom 1:2:3.4 unassign x"), Command::DomUnassign { seg: 1, bus: 2, dev: 3, func: 4 });
    assert_eq!(p("dom 1:2:3 unassign"), Command::DomIncomplete);
    assert_eq!(p("dom 1:2:3 assign 2"), Command::DomIncomplete);
    assert_eq!(p("dom list"), Command::DomList);
    assert_eq!(p("dom  map dom=1 iova=0x1000 pa=2000 len=0x0x10 perm=rw"),
        Command::DomMap { domid: 1, iova: 0x1000, pa: 0x2000, len: 0x10, r: true, w: true, x: false });
    // "map" right after "dom " has no leading space to match " map ".
    assert_eq!(p("dom map dom=1 iova=1 pa=2 len=3"), Command::Usage(Usage::Dom));
    assert_eq!(p("dom  unmap dom=3 iova=10 len=20"), Command::DomUnmap { domid: 3, iova: 0x10, len: 0x20 });
    assert_eq!(p("dom  unmap dom=3 iova=10"), Command::DomIncomplete);
    assert_eq!(p("dom destroy x"), Command::Usage(Usage::Dom));
    assert_eq!(p("dom destroy 70000"), Command::Usage(Usage::Dom));
    assert_eq!(p("dom"), Command::Unknown);
}

#[test]
fn iommu_commands() {
    assert_eq!(p("iommu plan dom=5"), Command::IommuPlanDom(5));
    assert_eq!(p("iommu plan dom=x"), Command::Usage(Usage::IommuPlanDom));
    assert_eq!(p("iommu te 1 ON"), Command::IommuTe { index: 1, on: true });
    assert_eq!(p("iommu te 1 off"), Command::IommuTe { index: 1, on: false });
    assert_eq!(p("iommu te 1"), Command::Usage(Usage::IommuTe));
    assert_eq!(p("iommu lsctx 1f"), Command::IommuLsctx(0x1f));
    assert_eq!(p("iommu lsctx 100"), Command::Usage(Usage::IommuLsctx));
    assert_eq!(p("iommu xlate bdf=0:1:2.3 iova=1000"),
        Command::IommuXlate { seg: 0, bus: 1, dev: 2, func: 3, iova: 0x1000 });
    assert_eq!(p("iommu xlate bdf=0:0:3.1 iova=0x2000"),
        Command::IommuXlate { seg: 0, bus: 0, dev: 3, func: 1, iova: 0x2000 });
    assert_eq!(p("iommu walk iova=10 bdf=2:5:6.7"),
        Command::IommuWalk { seg: 2, bus: 5, dev: 6, func: 7, iova: 0x10 });
    assert_eq!(p("iommu xlate bdf=0:3.1 iova=1"), Command::Usage(Usage::IommuXlate));
    assert_eq!(p("iommu invalidate dom=9"), Command::IommuInvalidateDom(9));
    assert_eq!(p("iommu invalidate bdf=1:2:3.4"), Command::IommuInvalidateBdf { seg: 1, bus: 2, dev: 3, func: 4 });
    assert_eq!(p("iommu invalidate bdf=1:2:3"), Command::Usage(Usage::IommuInvalidateBdf));
    assert_eq!(p("iommu invalidate"), Command::IommuInvalidate);
    assert_eq!(p("iommu root ff"), Command::IommuRoot(0xff));
    assert_eq!(p("iommu dump 3:1f.7"), Command::IommuDump { bus: 3, dev: 0x1f, func: 7 });
    assert_eq!(p("iommu dump 3"), Command::Usage(Usage::IommuDump));
    assert_eq!(p("iommu apply-safe"), Command::IommuApplySafe);
    assert_eq!(p("iommu amdv enable"), Command::AmdvEnable);
}

#[test]
fn misc_commands() {
    assert_eq!(p("logs filter level=warn cat=mig"), Command::LogsFilter { level: 1, cat_lo: 27, cat_hi: 30 });
    assert_eq!(p("logs filter level=other"), Command::LogsFilter { level: 0, cat_lo: 0, cat_hi: 0 });
    assert_eq!(p("loglevel error"), Command::LogLevel(Level::Error));
    assert_eq!(p("loglevel loud"), Command::Usage(Usage::LogLevel));
    assert_eq!(p("dump idt"), Command::DumpIdt);
    assert_eq!(p("dump all"), Command::Usage(Usage::Dump));
    assert_eq!(p("lang JA"), Command::SetLang(Some(Lang::Ja)));
    assert_eq!(p("lang auto"), Command::SetLang(None));
    assert_eq!(p("wdog"), Command::WdogReport);
    assert_eq!(p("wdog off"), Command::WdogOff);
    assert_eq!(p("wdog 30"), Command::WdogArm(30));
    assert_eq!(p("wdog +30"), Command::WdogArm(30));
    assert_eq!(p("wdog -1"), Command::Usage(Usage::Wdog));
    assert_eq!(p("pci"), Command::Pci);
    assert_eq!(p("pci class 0x2 0"), Command::PciClass(2, 0));
    assert_eq!(p("pci class 2"), Command::Usage(Usage::PciClass));
    assert_eq!(p("pci find vid=1af4 did=0x1041"), Command::PciFind { vid: Some(0x1af4), did: Some(0x1041) });
    assert_eq!(p("time wait 100 stall"), Command::TimeWait { usec: 100, stall: true });
    assert_eq!(p("time wait 100"), Command::TimeWait { usec: 100, stall: false });
    assert_eq!(p("time wait soon"), Command::Usage(Usage::TimeWait));
    assert_eq!(p("vm new"), Command::VmNew);
    assert_eq!(p("vm start"), Command::VmStart);
    assert_eq!(p("vm go"), Command::Usage(Usage::Vm));
}
