//! The message catalogue: every message key in English, Japanese and Chinese.

use vstd::prelude::*;
use vstd::string::StrSliceExecFns;
use crate::i18n::Lang;

verus! {

/// The message keys.
#[derive(Clone, Copy, Debug, PartialEq, Eq, Structural)]
pub enum MsgKey {
    Banner,
    Env,
    Ready,
    FeatVmx,
    FeatSvm,
    FeatEpt,
    FeatNpt,
    FeatVtd,
    FeatAmdvi,
    HpetPresent,
    HpetNotFound,
    SmpExpected,
    SmpObserved,
    SmpPmOk,
    SmpPmNg,
    SmpLmOk,
    SmpLmNg,
    SmpLmCount,
    SmpApicByte,
    SmpApIds,
    SmpReady,
    VirtioScan,
    VirtioNone,
    IommuVtdNone,
    IommuAmdvNone,
    VirtioBlk,
    VirtioBlkNone,
    VirtioNet,
    VirtioNetNone,
    SecWpOn,
    SecWpOff,
    SecSmepOn,
    SecSmepOff,
    SecSmapOn,
    SecSmapOff,
    SecNxeOn,
    SecNxeOff,
    SecSummaryOk,
    SecSummaryNg,
    MigTrackStartOk,
    MigTrackStartFail,
    MigTrackStopOk,
    MigTrackStopFail,
    MigChanNewOk,
    MigChanNewFail,
    MigChanCleared,
    MigNoBuffer,
    MigNetMacPrefix,
    MigNetMtuPrefix,
    MigNetMacUpdated,
    MigNetMtuUpdated,
    MigNetUsage,
    MigNetMacUsage,
    MigNetMtuUsage,
    MigNetEtherPrefix,
    MigNetEtherUpdated,
    MigNetEtherUsage,
    IommuCfgSaved,
    IommuCfgLoaded,
}

/// The name a key goes by.
pub open spec fn key_name(k: MsgKey) -> Seq<char> {
    match k {
        MsgKey::Banner => "banner"@,
        MsgKey::Env => "env"@,
        MsgKey::Ready => "ready"@,
        MsgKey::FeatVmx => "feat_vmx"@,
        MsgKey::FeatSvm => "feat_svm"@,
        MsgKey::FeatEpt => "feat_ept"@,
        MsgKey::FeatNpt => "feat_npt"@,
        MsgKey::FeatVtd => "feat_vtd"@,
        MsgKey::FeatAmdvi => "feat_amdvi"@,
        MsgKey::HpetPresent => "hpet_present"@,
        MsgKey::HpetNotFound => "hpet_not_found"@,
        MsgKey::SmpExpected => "smp_expected"@,
        MsgKey::SmpObserved => "smp_observed"@,
        MsgKey::SmpPmOk => "smp_pm_ok"@,
        MsgKey::SmpPmNg => "smp_pm_ng"@,
        MsgKey::SmpLmOk => "smp_lm_ok"@,
        MsgKey::SmpLmNg => "smp_lm_ng"@,
        MsgKey::SmpLmCount => "smp_lm_count"@,
        MsgKey::SmpApicByte => "smp_apic_byte"@,
        MsgKey::SmpApIds => "smp_ap_ids"@,
        MsgKey::SmpReady => "smp_ready"@,
        MsgKey::VirtioScan => "virtio_scan"@,
        MsgKey::VirtioNone => "virtio_none"@,
        MsgKey::IommuVtdNone => "iommu_vtd_none"@,
        MsgKey::IommuAmdvNone => "iommu_amdv_none"@,
        MsgKey::VirtioBlk => "virtio_blk"@,
        MsgKey::VirtioBlkNone => "virtio_blk_none"@,
        MsgKey::VirtioNet => "virtio_net"@,
        MsgKey::VirtioNetNone => "virtio_net_none"@,
        MsgKey::SecWpOn => "sec_wp_on"@,
        MsgKey::SecWpOff => "sec_wp_off"@,
        MsgKey::SecSmepOn => "sec_smep_on"@,
        MsgKey::SecSmepOff => "sec_smep_off"@,
        MsgKey::SecSmapOn => "sec_smap_on"@,
        MsgKey::SecSmapOff => "sec_smap_off"@,
        MsgKey::SecNxeOn => "sec_nxe_on"@,
        MsgKey::SecNxeOff => "sec_nxe_off"@,
        MsgKey::SecSummaryOk => "sec_summary_ok"@,
        MsgKey::SecSummaryNg => "sec_summary_ng"@,
        MsgKey::MigTrackStartOk => "migrate_track_start_ok"@,
        MsgKey::MigTrackStartFail => "migrate_track_start_fail"@,
        MsgKey::MigTrackStopOk => "migrate_track_stop_ok"@,
        MsgKey::MigTrackStopFail => "migrate_track_stop_fail"@,
        MsgKey::MigChanNewOk => "migrate_chan_new_ok"@,
        MsgKey::MigChanNewFail => "migrate_chan_new_fail"@,
        MsgKey::MigChanCleared => "migrate_chan_cleared"@,
        MsgKey::MigNoBuffer => "migrate_no_buffer"@,
        MsgKey::MigNetMacPrefix => "migrate_net_mac_prefix"@,
        MsgKey::MigNetMtuPrefix => "migrate_net_mtu_prefix"@,
        MsgKey::MigNetMacUpdated => "migrate_net_mac_updated"@,
        MsgKey::MigNetMtuUpdated => "migrate_net_mtu_updated"@,
        MsgKey::MigNetUsage => "migrate_net_usage"@,
        MsgKey::MigNetMacUsage => "migrate_net_mac_usage"@,
        MsgKey::MigNetMtuUsage => "migrate_net_mtu_usage"@,
        MsgKey::MigNetEtherPrefix => "migrate_net_ether_prefix"@,
        MsgKey::MigNetEtherUpdated => "migrate_net_ether_updated"@,
        MsgKey::MigNetEtherUsage => "migrate_net_ether_usage"@,
        MsgKey::IommuCfgSaved => "iommu_cfg_saved"@,
        MsgKey::IommuCfgLoaded => "iommu_cfg_loaded"@,
    }
}


/// Number of keys.
pub const KEY_COUNT: usize = 59;

/// The keys in catalogue order.
pub open spec fn key_at(i: int) -> MsgKey {
    if i == 0 { MsgKey::Banner } else if i == 1 { MsgKey::Env } else if i == 2 { MsgKey::Ready } else if i == 3 { MsgKey::FeatVmx } else if i == 4 { MsgKey::FeatSvm } else if i == 5 { MsgKey::FeatEpt } else if i == 6 { MsgKey::FeatNpt } else if i == 7 { MsgKey::FeatVtd } else if i == 8 { MsgKey::FeatAmdvi } else if i == 9 { MsgKey::HpetPresent } else if i == 10 { MsgKey::HpetNotFound } else if i == 11 { MsgKey::SmpExpected } else if i == 12 { MsgKey::SmpObserved } else if i == 13 { MsgKey::SmpPmOk } else if i == 14 { MsgKey::SmpPmNg } else if i == 15 { MsgKey::SmpLmOk } else if i == 16 { MsgKey::SmpLmNg } else if i == 17 { MsgKey::SmpLmCount } else if i == 18 { MsgKey::SmpApicByte } else if i == 19 { MsgKey::SmpApIds } else if i == 20 { MsgKey::SmpReady } else if i == 21 { MsgKey::VirtioScan } else if i == 22 { MsgKey::VirtioNone } else if i == 23 { MsgKey::IommuVtdNone } else if i == 24 { MsgKey::IommuAmdvNone } else if i == 25 { MsgKey::VirtioBlk } else if i == 26 { MsgKey::VirtioBlkNone } else if i == 27 { MsgKey::VirtioNet } else if i == 28 { MsgKey::VirtioNetNone } else if i == 29 { MsgKey::SecWpOn } else if i == 30 { MsgKey::SecWpOff } else if i == 31 { MsgKey::SecSmepOn } else if i == 32 { MsgKey::SecSmepOff } else if i == 33 { MsgKey::SecSmapOn } else if i == 34 { MsgKey::SecSmapOff } else if i == 35 { MsgKey::SecNxeOn } else if i == 36 { MsgKey::SecNxeOff } else if i == 37 { MsgKey::SecSummaryOk } else if i == 38 { MsgKey::SecSummaryNg } else if i == 39 { MsgKey::MigTrackStartOk } else if i == 40 { MsgKey::MigTrackStartFail } else if i == 41 { MsgKey::MigTrackStopOk } else if i == 42 { MsgKey::MigTrackStopFail } else if i == 43 { MsgKey::MigChanNewOk } else if i == 44 { MsgKey::MigChanNewFail } else if i == 45 { MsgKey::MigChanCleared } else if i == 46 { MsgKey::MigNoBuffer } else if i == 47 { MsgKey::MigNetMacPrefix } else if i == 48 { MsgKey::MigNetMtuPrefix } else if i == 49 { MsgKey::MigNetMacUpdated } else if i == 50 { MsgKey::MigNetMtuUpdated } else if i == 51 { MsgKey::MigNetUsage } else if i == 52 { MsgKey::MigNetMacUsage } else if i == 53 { MsgKey::MigNetMtuUsage } else if i == 54 { MsgKey::MigNetEtherPrefix } else if i == 55 { MsgKey::MigNetEtherUpdated } else if i == 56 { MsgKey::MigNetEtherUsage } else if i == 57 { MsgKey::IommuCfgSaved } else { MsgKey::IommuCfgLoaded }
}

fn key_by_index(i: usize) -> (k: MsgKey)
    requires
        i < KEY_COUNT,
    ensures
        k == key_at(i as int),
{
    match i {
        0 => MsgKey::Banner,
        1 => MsgKey::Env,
        2 => MsgKey::Ready,
        3 => MsgKey::FeatVmx,
        4 => MsgKey::FeatSvm,
        5 => MsgKey::FeatEpt,
        6 => MsgKey::FeatNpt,
        7 => MsgKey::FeatVtd,
        8 => MsgKey::FeatAmdvi,
        9 => MsgKey::HpetPresent,
        10 => MsgKey::HpetNotFound,
        11 => MsgKey::SmpExpected,
        12 => MsgKey::SmpObserved,
        13 => MsgKey::SmpPmOk,
        14 => MsgKey::SmpPmNg,
        15 => MsgKey::SmpLmOk,
        16 => MsgKey::SmpLmNg,
        17 => MsgKey::SmpLmCount,
        18 => MsgKey::SmpApicByte,
        19 => MsgKey::SmpApIds,
        20 => MsgKey::SmpReady,
        21 => MsgKey::VirtioScan,
        22 => MsgKey::VirtioNone,
        23 => MsgKey::IommuVtdNone,
        24 => MsgKey::IommuAmdvNone,
        25 => MsgKey::VirtioBlk,
        26 => MsgKey::VirtioBlkNone,
        27 => MsgKey::VirtioNet,
        28 => MsgKey::VirtioNetNone,
        29 => MsgKey::SecWpOn,
        30 => MsgKey::SecWpOff,
        31 => MsgKey::SecSmepOn,
        32 => MsgKey::SecSmepOff,
        33 => MsgKey::SecSmapOn,
        34 => MsgKey::SecSmapOff,
        35 => MsgKey::SecNxeOn,
        36 => MsgKey::SecNxeOff,
        37 => MsgKey::SecSummaryOk,
        38 => MsgKey::SecSummaryNg,
        39 => MsgKey::MigTrackStartOk,
        40 => MsgKey::MigTrackStartFail,
        41 => MsgKey::MigTrackStopOk,
        42 => MsgKey::MigTrackStopFail,
        43 => MsgKey::MigChanNewOk,
        44 => MsgKey::MigChanNewFail,
        45 => MsgKey::MigChanCleared,
        46 => MsgKey::MigNoBuffer,
        47 => MsgKey::MigNetMacPrefix,
        48 => MsgKey::MigNetMtuPrefix,
        49 => MsgKey::MigNetMacUpdated,
        50 => MsgKey::MigNetMtuUpdated,
        51 => MsgKey::MigNetUsage,
        52 => MsgKey::MigNetMacUsage,
        53 => MsgKey::MigNetMtuUsage,
        54 => MsgKey::MigNetEtherPrefix,
        55 => MsgKey::MigNetEtherUpdated,
        56 => MsgKey::MigNetEtherUsage,
        57 => MsgKey::IommuCfgSaved,
        _ => MsgKey::IommuCfgLoaded,
    }
}

/// The first key from position `i` on whose name is `name`.
pub open spec fn find_key(name: Seq<char>, i: int) -> Option<MsgKey>
    decreases KEY_COUNT - i,
{
    if i >= KEY_COUNT {
        None
    } else if key_name(key_at(i)) == name {
        Some(key_at(i))
    } else {
        find_key(name, i + 1)
    }
}

/// The key named `name`.
pub open spec fn key_named(name: Seq<char>) -> Option<MsgKey> {
    find_key(name, 0)
}

/// Are the two strings equal?
pub fn same_str(a: &str, b: &str) -> (r: bool)
    ensures
        r == (a@ == b@),
{
    let n = a.unicode_len();
    if n != b.unicode_len() {
        return false;
    }
    let mut i: usize = 0;
    while i < n
        invariant
            i <= n,
            n == a@.len(),
            n == b@.len(),
            forall|j: int| 0 <= j < i ==> a@[j] == b@[j],
        decreases n - i,
    {
        if a.get_char(i) != b.get_char(i) {
            return false;
        }
        i = i + 1;
    }
    assert(a@ =~= b@);
    true
}

/// Look a key up by its name.
pub fn key_from_name(name: &str) -> (r: Option<MsgKey>)
    ensures
        r == key_named(name@),
{
    let mut i: usize = 0;
    while i < KEY_COUNT
        invariant
            i <= KEY_COUNT,
            key_named(name@) == find_key(name@, i as int),
        decreases KEY_COUNT - i,
    {
        let k = key_by_index(i);
        if same_str(name_of(k), name) {
            return Some(k);
        }
        i = i + 1;
    }
    None
}

/// The name of a key.
pub fn name_of(k: MsgKey) -> (r: &'static str)
    ensures
        r@ == key_name(k),
{
    match k {
        MsgKey::Banner => "banner",
        MsgKey::Env => "env",
        MsgKey::Ready => "ready",
        MsgKey::FeatVmx => "feat_vmx",
        MsgKey::FeatSvm => "feat_svm",
        MsgKey::FeatEpt => "feat_ept",
        MsgKey::FeatNpt => "feat_npt",
        MsgKey::FeatVtd => "feat_vtd",
        MsgKey::FeatAmdvi => "feat_amdvi",
        MsgKey::HpetPresent => "hpet_present",
        MsgKey::HpetNotFound => "hpet_not_found",
        MsgKey::SmpExpected => "smp_expected",
        MsgKey::SmpObserved => "smp_observed",
        MsgKey::SmpPmOk => "smp_pm_ok",
        MsgKey::SmpPmNg => "smp_pm_ng",
        MsgKey::SmpLmOk => "smp_lm_ok",
        MsgKey::SmpLmNg => "smp_lm_ng",
        MsgKey::SmpLmCount => "smp_lm_count",
        MsgKey::SmpApicByte => "smp_apic_byte",
        MsgKey::SmpApIds => "smp_ap_ids",
        MsgKey::SmpReady => "smp_ready",
        MsgKey::VirtioScan => "virtio_scan",
        MsgKey::VirtioNone => "virtio_none",
        MsgKey::IommuVtdNone => "iommu_vtd_none",
        MsgKey::IommuAmdvNone => "iommu_amdv_none",
        MsgKey::VirtioBlk => "virtio_blk",
        MsgKey::VirtioBlkNone => "virtio_blk_none",
        MsgKey::VirtioNet => "virtio_net",
        MsgKey::VirtioNetNone => "virtio_net_none",
        MsgKey::SecWpOn => "sec_wp_on",
        MsgKey::SecWpOff => "sec_wp_off",
        MsgKey::SecSmepOn => "sec_smep_on",
        MsgKey::SecSmepOff => "sec_smep_off",
        MsgKey::SecSmapOn => "sec_smap_on",
        MsgKey::SecSmapOff => "sec_smap_off",
        MsgKey::SecNxeOn => "sec_nxe_on",
        MsgKey::SecNxeOff => "sec_nxe_off",
        MsgKey::SecSummaryOk => "sec_summary_ok",
        MsgKey::SecSummaryNg => "sec_summary_ng",
        MsgKey::MigTrackStartOk => "migrate_track_start_ok",
        MsgKey::MigTrackStartFail => "migrate_track_start_fail",
        MsgKey::MigTrackStopOk => "migrate_track_stop_ok",
        MsgKey::MigTrackStopFail => "migrate_track_stop_fail",
        MsgKey::MigChanNewOk => "migrate_chan_new_ok",
        MsgKey::MigChanNewFail => "migrate_chan_new_fail",
        MsgKey::MigChanCleared => "migrate_chan_cleared",
        MsgKey::MigNoBuffer => "migrate_no_buffer",
        MsgKey::MigNetMacPrefix => "migrate_net_mac_prefix",
        MsgKey::MigNetMtuPrefix => "migrate_net_mtu_prefix",
        MsgKey::MigNetMacUpdated => "migrate_net_mac_updated",
        MsgKey::MigNetMtuUpdated => "migrate_net_mtu_updated",
        MsgKey::MigNetUsage => "migrate_net_usage",
        MsgKey::MigNetMacUsage => "migrate_net_mac_usage",
        MsgKey::MigNetMtuUsage => "migrate_net_mtu_usage",
        MsgKey::MigNetEtherPrefix => "migrate_net_ether_prefix",
        MsgKey::MigNetEtherUpdated => "migrate_net_ether_updated",
        MsgKey::MigNetEtherUsage => "migrate_net_ether_usage",
        MsgKey::IommuCfgSaved => "iommu_cfg_saved",
        MsgKey::IommuCfgLoaded => "iommu_cfg_loaded",
    }
}

/// The English text of a key.
pub open spec fn text_en(k: MsgKey) -> Seq<char> {
    match k {
        MsgKey::Banner => "Zerovisor: UEFI bootstrap started\r\n"@,
        MsgKey::Env => "Environment: x86_64 UEFI application\r\n"@,
        MsgKey::Ready => "Status: Initialization complete\r\n"@,
        MsgKey::FeatVmx => "Feature: Intel VMX\r\n"@,
        MsgKey::FeatSvm => "Feature: AMD SVM\r\n"@,
        MsgKey::FeatEpt => "Feature: Intel EPT (hint)\r\n"@,
        MsgKey::FeatNpt => "Feature: AMD NPT\r\n"@,
        MsgKey::FeatVtd => "Feature: Intel VT-d (ACPI DMAR)\r\n"@,
        MsgKey::FeatAmdvi => "Feature: AMD-Vi (ACPI IVRS)\r\n"@,
        MsgKey::HpetPresent => "HPET: present, base=0x"@,
        MsgKey::HpetNotFound => "HPET: not found\r\n"@,
        MsgKey::SmpExpected => "SMP: expected CPUs="@,
        MsgKey::SmpObserved => "SMP: observed AP IDs="@,
        MsgKey::SmpPmOk => "SMP: AP PM-entry OK\r\n"@,
        MsgKey::SmpPmNg => "SMP: AP PM-entry not observed\r\n"@,
        MsgKey::SmpLmOk => "SMP: AP LM-entry OK\r\n"@,
        MsgKey::SmpLmNg => "SMP: AP LM-entry not observed\r\n"@,
        MsgKey::SmpLmCount => "SMP: AP LM-count="@,
        MsgKey::SmpApicByte => "SMP: AP APIC-ID(byte)="@,
        MsgKey::SmpApIds => "SMP: AP IDs="@,
        MsgKey::SmpReady => "SMP: AP READY="@,
        MsgKey::VirtioScan => "VirtIO: scanning ECAM segments\r\n"@,
        MsgKey::VirtioNone => "VirtIO: no devices found\r\n"@,
        MsgKey::IommuVtdNone => "VT-d: DMAR not found\r\n"@,
        MsgKey::IommuAmdvNone => "AMD-Vi: IVRS not found\r\n"@,
        MsgKey::VirtioBlk => "VirtIO-blk: capacity="@,
        MsgKey::VirtioBlkNone => "VirtIO-blk: not found\r\n"@,
        MsgKey::VirtioNet => "VirtIO-net: present\r\n"@,
        MsgKey::VirtioNetNone => "VirtIO-net: not found\r\n"@,
        MsgKey::SecWpOn => "Security: CR0.WP=ON\r\n"@,
        MsgKey::SecWpOff => "Security: CR0.WP=OFF\r\n"@,
        MsgKey::SecSmepOn => "Security: CR4.SMEP=ON\r\n"@,
        MsgKey::SecSmepOff => "Security: CR4.SMEP=OFF\r\n"@,
        MsgKey::SecSmapOn => "Security: CR4.SMAP=ON\r\n"@,
        MsgKey::SecSmapOff => "Security: CR4.SMAP=OFF\r\n"@,
        MsgKey::SecNxeOn => "Security: EFER.NXE=ON\r\n"@,
        MsgKey::SecNxeOff => "Security: EFER.NXE=OFF\r\n"@,
        MsgKey::SecSummaryOk => "Security: protections OK (WP/SMEP/SMAP/NXE)\r\n"@,
        MsgKey::SecSummaryNg => "Security: protections NOT fully enabled\r\n"@,
        MsgKey::MigTrackStartOk => "migrate: tracking started\r\n"@,
        MsgKey::MigTrackStartFail => "migrate: start failed\r\n"@,
        MsgKey::MigTrackStopOk => "migrate: tracking stopped\r\n"@,
        MsgKey::MigTrackStopFail => "migrate: stop failed\r\n"@,
        MsgKey::MigChanNewOk => "migrate: chan new ok\r\n"@,
        MsgKey::MigChanNewFail => "migrate: chan new failed\r\n"@,
        MsgKey::MigChanCleared => "migrate: chan cleared\r\n"@,
        MsgKey::MigNoBuffer => "migrate: no buffer\r\n"@,
        MsgKey::MigNetMacPrefix => "net: mac="@,
        MsgKey::MigNetMtuPrefix => "net: mtu="@,
        MsgKey::MigNetMacUpdated => "net: mac updated\r\n"@,
        MsgKey::MigNetMtuUpdated => "net: mtu updated\r\n"@,
        MsgKey::MigNetUsage => "usage: migrate net [mac|mtu] ...\r\n"@,
        MsgKey::MigNetMacUsage => "usage: migrate net mac [get|set xx:xx:xx:xx:xx:xx]\r\n"@,
        MsgKey::MigNetMtuUsage => "usage: migrate net mtu [get|set <n>]\r\n"@,
        MsgKey::MigNetEtherPrefix => "net: ether=0x"@,
        MsgKey::MigNetEtherUpdated => "net: ether updated\r\n"@,
        MsgKey::MigNetEtherUsage => "usage: migrate net ether [get|set <hex>]\r\n"@,
        MsgKey::IommuCfgSaved => "iommu: cfg saved\r\n"@,
        MsgKey::IommuCfgLoaded => "iommu: cfg loaded\r\n"@,
    }
}

/// The Japanese text of a key.
pub open spec fn text_ja(k: MsgKey) -> Seq<char> {
    match k {
        MsgKey::Banner => "Zerovisor: UEFIブート開始\r\n"@,
        MsgKey::Env => "環境: x86_64 UEFI アプリケーション\r\n"@,
        MsgKey::Ready => "状態: 初期化完了\r\n"@,
        MsgKey::FeatVmx => "機能: Intel VMX\r\n"@,
        MsgKey::FeatSvm => "機能: AMD SVM\r\n"@,
        MsgKey::FeatEpt => "機能: Intel EPT（示唆）\r\n"@,
        MsgKey::FeatNpt => "機能: AMD NPT\r\n"@,
        MsgKey::FeatVtd => "機能: Intel VT-d（ACPI DMAR）\r\n"@,
        MsgKey::FeatAmdvi => "機能: AMD-Vi（ACPI IVRS）\r\n"@,
        MsgKey::HpetPresent => "HPET: 検出 base=0x"@,
        MsgKey::HpetNotFound => "HPET: 見つかりません\r\n"@,
        MsgKey::SmpExpected => "SMP: 期待CPU数="@,
        MsgKey::SmpObserved => "SMP: 観測AP ID数="@,
        MsgKey::SmpPmOk => "SMP: AP 保護モード到達 OK\r\n"@,
        MsgKey::SmpPmNg => "SMP: AP 保護モード未到達\r\n"@,
        MsgKey::SmpLmOk => "SMP: AP 長モード到達 OK\r\n"@,
        MsgKey::SmpLmNg => "SMP: AP 長モード未到達\r\n"@,
        MsgKey::SmpLmCount => "SMP: AP 長モード回数="@,
        MsgKey::SmpApicByte => "SMP: AP APIC-ID(下位1B)="@,
        MsgKey::SmpApIds => "SMP: AP ID配列="@,
        MsgKey::SmpReady => "SMP: AP READY="@,
        MsgKey::VirtioScan => "VirtIO: ECAMセグメントを走査中\r\n"@,
        MsgKey::VirtioNone => "VirtIO: デバイスが見つかりません\r\n"@,
        MsgKey::IommuVtdNone => "VT-d: DMARが見つかりません\r\n"@,
        MsgKey::IommuAmdvNone => "AMD-Vi: IVRSが見つかりません\r\n"@,
        MsgKey::VirtioBlk => "VirtIO-blk: 容量="@,
        MsgKey::VirtioBlkNone => "VirtIO-blk: 見つかりません\r\n"@,
        MsgKey::VirtioNet => "VirtIO-net: 検出\r\n"@,
        MsgKey::VirtioNetNone => "VirtIO-net: 見つかりません\r\n"@,
        MsgKey::SecWpOn => "セキュリティ: CR0.WP=有効\r\n"@,
        MsgKey::SecWpOff => "セキュリティ: CR0.WP=無効\r\n"@,
        MsgKey::SecSmepOn => "セキュリティ: CR4.SMEP=有効\r\n"@,
        MsgKey::SecSmepOff => "セキュリティ: CR4.SMEP=無効\r\n"@,
        MsgKey::SecSmapOn => "セキュリティ: CR4.SMAP=有効\r\n"@,
        MsgKey::SecSmapOff => "セキュリティ: CR4.SMAP=無効\r\n"@,
        MsgKey::SecNxeOn => "セキュリティ: EFER.NXE=有効\r\n"@,
        MsgKey::SecNxeOff => "セキュリティ: EFER.NXE=無効\r\n"@,
        MsgKey::SecSummaryOk => "セキュリティ: 保護は有効（WP/SMEP/SMAP/NXE）\r\n"@,
        MsgKey::SecSummaryNg => "セキュリティ: 保護が十分ではありません\r\n"@,
        MsgKey::MigTrackStartOk => "migrate: 追跡を開始しました\r\n"@,
        MsgKey::MigTrackStartFail => "migrate: 開始に失敗しました\r\n"@,
        MsgKey::MigTrackStopOk => "migrate: 追跡を停止しました\r\n"@,
        MsgKey::MigTrackStopFail => "migrate: 停止に失敗しました\r\n"@,
        MsgKey::MigChanNewOk => "migrate: チャネル作成に成功\r\n"@,
        MsgKey::MigChanNewFail => "migrate: チャネル作成に失敗\r\n"@,
        MsgKey::MigChanCleared => "migrate: チャネルをクリアしました\r\n"@,
        MsgKey::MigNoBuffer => "migrate: バッファがありません\r\n"@,
        MsgKey::MigNetMacPrefix => "net: MAC="@,
        MsgKey::MigNetMtuPrefix => "net: MTU="@,
        MsgKey::MigNetMacUpdated => "net: MACを更新しました\r\n"@,
        MsgKey::MigNetMtuUpdated => "net: MTUを更新しました\r\n"@,
        MsgKey::MigNetUsage => "usage: migrate net [mac|mtu] ...\r\n"@,
        MsgKey::MigNetMacUsage => "usage: migrate net mac [get|set xx:xx:xx:xx:xx:xx]\r\n"@,
        MsgKey::MigNetMtuUsage => "usage: migrate net mtu [get|set <n>]\r\n"@,
        MsgKey::MigNetEtherPrefix => "net: EtherType=0x"@,
        MsgKey::MigNetEtherUpdated => "net: EtherTypeを更新しました\r\n"@,
        MsgKey::MigNetEtherUsage => "usage: migrate net ether [get|set <hex>]\r\n"@,
        MsgKey::IommuCfgSaved => "iommu: 設定を保存しました\r\n"@,
        MsgKey::IommuCfgLoaded => "iommu: 設定を読み込みました\r\n"@,
    }
}

/// The Chinese text of a key.
pub open spec fn text_zh(k: MsgKey) -> Seq<char> {
    match k {
        MsgKey::Banner => "Zerovisor: UEFI 引导已开始\r\n"@,
        MsgKey::Env => "环境: x86_64 UEFI 应用程序\r\n"@,
        MsgKey::Ready => "状态: 初始化完成\r\n"@,
        MsgKey::FeatVmx => "功能: Intel VMX\r\n"@,
        MsgKey::FeatSvm => "功能: AMD SVM\r\n"@,
        MsgKey::FeatEpt => "功能: Intel EPT（提示）\r\n"@,
        MsgKey::FeatNpt => "功能: AMD NPT\r\n"@,
        MsgKey::FeatVtd => "功能: Intel VT-d（ACPI DMAR）\r\n"@,
        MsgKey::FeatAmdvi => "功能: AMD-Vi（ACPI IVRS）\r\n"@,
        MsgKey::HpetPresent => "HPET: 已检测 base=0x"@,
        MsgKey::HpetNotFound => "HPET: 未找到\r\n"@,
        MsgKey::SmpExpected => "SMP: 预期CPU数="@,
        MsgKey::SmpObserved => "SMP: 已观测AP ID数="@,
        MsgKey::SmpPmOk => "SMP: AP 保护模式就绪\r\n"@,
        MsgKey::SmpPmNg => "SMP: AP 保护模式未就绪\r\n"@,
        MsgKey::SmpLmOk => "SMP: AP 长模式就绪\r\n"@,
        MsgKey::SmpLmNg => "SMP: AP 长模式未就绪\r\n"@,
        MsgKey::SmpLmCount => "SMP: AP 长模式计数="@,
        MsgKey::SmpApicByte => "SMP: AP APIC-ID(低1字节)="@,
        MsgKey::SmpApIds => "SMP: AP ID列表="@,
        MsgKey::SmpReady => "SMP: AP READY="@,
        MsgKey::VirtioScan => "VirtIO: 正在扫描ECAM段\r\n"@,
        MsgKey::VirtioNone => "VirtIO: 未找到设备\r\n"@,
        MsgKey::IommuVtdNone => "VT-d: 未找到DMAR\r\n"@,
        MsgKey::IommuAmdvNone => "AMD-Vi: 未找到IVRS\r\n"@,
        MsgKey::VirtioBlk => "VirtIO-blk: 容量="@,
        MsgKey::VirtioBlkNone => "VirtIO-blk: 未找到\r\n"@,
        MsgKey::VirtioNet => "VirtIO-net: 已检测\r\n"@,
        MsgKey::VirtioNetNone => "VirtIO-net: 未找到\r\n"@,
        MsgKey::SecWpOn => "安全: CR0.WP=启用\r\n"@,
        MsgKey::SecWpOff => "安全: CR0.WP=未启用\r\n"@,
        MsgKey::SecSmepOn => "安全: CR4.SMEP=启用\r\n"@,
        MsgKey::SecSmepOff => "安全: CR4.SMEP=未启用\r\n"@,
        MsgKey::SecSmapOn => "安全: CR4.SMAP=启用\r\n"@,
        MsgKey::SecSmapOff => "安全: CR4.SMAP=未启用\r\n"@,
        MsgKey::SecNxeOn => "安全: EFER.NXE=启用\r\n"@,
        MsgKey::SecNxeOff => "安全: EFER.NXE=未启用\r\n"@,
        MsgKey::SecSummaryOk => "安全: 保护正常（WP/SMEP/SMAP/NXE）\r\n"@,
        MsgKey::SecSummaryNg => "安全: 保护未完全启用\r\n"@,
        MsgKey::MigTrackStartOk => "migrate: 已开始跟踪\r\n"@,
        MsgKey::MigTrackStartFail => "migrate: 启动失败\r\n"@,
        MsgKey::MigTrackStopOk => "migrate: 已停止跟踪\r\n"@,
        MsgKey::MigTrackStopFail => "migrate: 停止失败\r\n"@,
        MsgKey::MigChanNewOk => "migrate: 通道创建成功\r\n"@,
        MsgKey::MigChanNewFail => "migrate: 通道创建失败\r\n"@,
        MsgKey::MigChanCleared => "migrate: 通道已清空\r\n"@,
        MsgKey::MigNoBuffer => "migrate: 无缓冲区\r\n"@,
        MsgKey::MigNetMacPrefix => "net: MAC="@,
        MsgKey::MigNetMtuPrefix => "net: MTU="@,
        MsgKey::MigNetMacUpdated => "net: 已更新MAC\r\n"@,
        MsgKey::MigNetMtuUpdated => "net: 已更新MTU\r\n"@,
        MsgKey::MigNetUsage => "usage: migrate net [mac|mtu] ...\r\n"@,
        MsgKey::MigNetMacUsage => "usage: migrate net mac [get|set xx:xx:xx:xx:xx:xx]\r\n"@,
        MsgKey::MigNetMtuUsage => "usage: migrate net mtu [get|set <n>]\r\n"@,
        MsgKey::MigNetEtherPrefix => "net: EtherType=0x"@,
        MsgKey::MigNetEtherUpdated => "net: 已更新EtherType\r\n"@,
        MsgKey::MigNetEtherUsage => "usage: migrate net ether [get|set <hex>]\r\n"@,
        MsgKey::IommuCfgSaved => "iommu: 已保存配置\r\n"@,
        MsgKey::IommuCfgLoaded => "iommu: 已加载配置\r\n"@,
    }
}

/// The text of key `k` in language `lang`.
pub open spec fn message(lang: Lang, k: MsgKey) -> Seq<char> {
    match lang {
        Lang::En => text_en(k),
        Lang::Ja => text_ja(k),
        Lang::Zh => text_zh(k),
    }
}

/// The text of key `k` in language `lang`.
pub fn message_text(lang: Lang, k: MsgKey) -> (r: &'static str)
    ensures
        r@ == message(lang, k),
{
    match lang {
        Lang::En => match k {
            MsgKey::Banner => "Zerovisor: UEFI bootstrap started\r\n",
            MsgKey::Env => "Environment: x86_64 UEFI application\r\n",
            MsgKey::Ready => "Status: Initialization complete\r\n",
            MsgKey::FeatVmx => "Feature: Intel VMX\r\n",
            MsgKey::FeatSvm => "Feature: AMD SVM\r\n",
            MsgKey::FeatEpt => "Feature: Intel EPT (hint)\r\n",
            MsgKey::FeatNpt => "Feature: AMD NPT\r\n",
            MsgKey::FeatVtd => "Feature: Intel VT-d (ACPI DMAR)\r\n",
            MsgKey::FeatAmdvi => "Feature: AMD-Vi (ACPI IVRS)\r\n",
            MsgKey::HpetPresent => "HPET: present, base=0x",
            MsgKey::HpetNotFound => "HPET: not found\r\n",
            MsgKey::SmpExpected => "SMP: expected CPUs=",
            MsgKey::SmpObserved => "SMP: observed AP IDs=",
            MsgKey::SmpPmOk => "SMP: AP PM-entry OK\r\n",
            MsgKey::SmpPmNg => "SMP: AP PM-entry not observed\r\n",
            MsgKey::SmpLmOk => "SMP: AP LM-entry OK\r\n",
            MsgKey::SmpLmNg => "SMP: AP LM-entry not observed\r\n",
            MsgKey::SmpLmCount => "SMP: AP LM-count=",
            MsgKey::SmpApicByte => "SMP: AP APIC-ID(byte)=",
            MsgKey::SmpApIds => "SMP: AP IDs=",
            MsgKey::SmpReady => "SMP: AP READY=",
            MsgKey::VirtioScan => "VirtIO: scanning ECAM segments\r\n",
            MsgKey::VirtioNone => "VirtIO: no devices found\r\n",
            MsgKey::IommuVtdNone => "VT-d: DMAR not found\r\n",
            MsgKey::IommuAmdvNone => "AMD-Vi: IVRS not found\r\n",
            MsgKey::VirtioBlk => "VirtIO-blk: capacity=",
            MsgKey::VirtioBlkNone => "VirtIO-blk: not found\r\n",
            MsgKey::VirtioNet => "VirtIO-net: present\r\n",
            MsgKey::VirtioNetNone => "VirtIO-net: not found\r\n",
            MsgKey::SecWpOn => "Security: CR0.WP=ON\r\n",
            MsgKey::SecWpOff => "Security: CR0.WP=OFF\r\n",
            MsgKey::SecSmepOn => "Security: CR4.SMEP=ON\r\n",
            MsgKey::SecSmepOff => "Security: CR4.SMEP=OFF\r\n",
            MsgKey::SecSmapOn => "Security: CR4.SMAP=ON\r\n",
            MsgKey::SecSmapOff => "Security: CR4.SMAP=OFF\r\n",
            MsgKey::SecNxeOn => "Security: EFER.NXE=ON\r\n",
            MsgKey::SecNxeOff => "Security: EFER.NXE=OFF\r\n",
            MsgKey::SecSummaryOk => "Security: protections OK (WP/SMEP/SMAP/NXE)\r\n",
            MsgKey::SecSummaryNg => "Security: protections NOT fully enabled\r\n",
            MsgKey::MigTrackStartOk => "migrate: tracking started\r\n",
            MsgKey::MigTrackStartFail => "migrate: start failed\r\n",
            MsgKey::MigTrackStopOk => "migrate: tracking stopped\r\n",
            MsgKey::MigTrackStopFail => "migrate: stop failed\r\n",
            MsgKey::MigChanNewOk => "migrate: chan new ok\r\n",
            MsgKey::MigChanNewFail => "migrate: chan new failed\r\n",
            MsgKey::MigChanCleared => "migrate: chan cleared\r\n",
            MsgKey::MigNoBuffer => "migrate: no buffer\r\n",
            MsgKey::MigNetMacPrefix => "net: mac=",
            MsgKey::MigNetMtuPrefix => "net: mtu=",
            MsgKey::MigNetMacUpdated => "net: mac updated\r\n",
            MsgKey::MigNetMtuUpdated => "net: mtu updated\r\n",
            MsgKey::MigNetUsage => "usage: migrate net [mac|mtu] ...\r\n",
            MsgKey::MigNetMacUsage => "usage: migrate net mac [get|set xx:xx:xx:xx:xx:xx]\r\n",
            MsgKey::MigNetMtuUsage => "usage: migrate net mtu [get|set <n>]\r\n",
            MsgKey::MigNetEtherPrefix => "net: ether=0x",
            MsgKey::MigNetEtherUpdated => "net: ether updated\r\n",
            MsgKey::MigNetEtherUsage => "usage: migrate net ether [get|set <hex>]\r\n",
            MsgKey::IommuCfgSaved => "iommu: cfg saved\r\n",
            MsgKey::IommuCfgLoaded => "iommu: cfg loaded\r\n",
        },
        Lang::Ja => match k {
            MsgKey::Banner => "Zerovisor: UEFIブート開始\r\n",
            MsgKey::Env => "環境: x86_64 UEFI アプリケーション\r\n",
            MsgKey::Ready => "状態: 初期化完了\r\n",
            MsgKey::FeatVmx => "機能: Intel VMX\r\n",
            MsgKey::FeatSvm => "機能: AMD SVM\r\n",
            MsgKey::FeatEpt => "機能: Intel EPT（示唆）\r\n",
            MsgKey::FeatNpt => "機能: AMD NPT\r\n",
            MsgKey::FeatVtd => "機能: Intel VT-d（ACPI DMAR）\r\n",
            MsgKey::FeatAmdvi => "機能: AMD-Vi（ACPI IVRS）\r\n",
            MsgKey::HpetPresent => "HPET: 検出 base=0x",
            MsgKey::HpetNotFound => "HPET: 見つかりません\r\n",
            MsgKey::SmpExpected => "SMP: 期待CPU数=",
            MsgKey::SmpObserved => "SMP: 観測AP ID数=",
            MsgKey::SmpPmOk => "SMP: AP 保護モード到達 OK\r\n",
            MsgKey::SmpPmNg => "SMP: AP 保護モード未到達\r\n",
            MsgKey::SmpLmOk => "SMP: AP 長モード到達 OK\r\n",
            MsgKey::SmpLmNg => "SMP: AP 長モード未到達\r\n",
            MsgKey::SmpLmCount => "SMP: AP 長モード回数=",
            MsgKey::SmpApicByte => "SMP: AP APIC-ID(下位1B)=",
            MsgKey::SmpApIds => "SMP: AP ID配列=",
            MsgKey::SmpReady => "SMP: AP READY=",
            MsgKey::VirtioScan => "VirtIO: ECAMセグメントを走査中\r\n",
            MsgKey::VirtioNone => "VirtIO: デバイスが見つかりません\r\n",
            MsgKey::IommuVtdNone => "VT-d: DMARが見つかりません\r\n",
            MsgKey::IommuAmdvNone => "AMD-Vi: IVRSが見つかりません\r\n",
            MsgKey::VirtioBlk => "VirtIO-blk: 容量=",
            MsgKey::VirtioBlkNone => "VirtIO-blk: 見つかりません\r\n",
            MsgKey::VirtioNet => "VirtIO-net: 検出\r\n",
            MsgKey::VirtioNetNone => "VirtIO-net: 見つかりません\r\n",
            MsgKey::SecWpOn => "セキュリティ: CR0.WP=有効\r\n",
            MsgKey::SecWpOff => "セキュリティ: CR0.WP=無効\r\n",
            MsgKey::SecSmepOn => "セキュリティ: CR4.SMEP=有効\r\n",
            MsgKey::SecSmepOff => "セキュリティ: CR4.SMEP=無効\r\n",
            MsgKey::SecSmapOn => "セキュリティ: CR4.SMAP=有効\r\n",
            MsgKey::SecSmapOff => "セキュリティ: CR4.SMAP=無効\r\n",
            MsgKey::SecNxeOn => "セキュリティ: EFER.NXE=有効\r\n",
            MsgKey::SecNxeOff => "セキュリティ: EFER.NXE=無効\r\n",
            MsgKey::SecSummaryOk => "セキュリティ: 保護は有効（WP/SMEP/SMAP/NXE）\r\n",
            MsgKey::SecSummaryNg => "セキュリティ: 保護が十分ではありません\r\n",
            MsgKey::MigTrackStartOk => "migrate: 追跡を開始しました\r\n",
            MsgKey::MigTrackStartFail => "migrate: 開始に失敗しました\r\n",
            MsgKey::MigTrackStopOk => "migrate: 追跡を停止しました\r\n",
            MsgKey::MigTrackStopFail => "migrate: 停止に失敗しました\r\n",
            MsgKey::MigChanNewOk => "migrate: チャネル作成に成功\r\n",
            MsgKey::MigChanNewFail => "migrate: チャネル作成に失敗\r\n",
            MsgKey::MigChanCleared => "migrate: チャネルをクリアしました\r\n",
            MsgKey::MigNoBuffer => "migrate: バッファがありません\r\n",
            MsgKey::MigNetMacPrefix => "net: MAC=",
            MsgKey::MigNetMtuPrefix => "net: MTU=",
            MsgKey::MigNetMacUpdated => "net: MACを更新しました\r\n",
            MsgKey::MigNetMtuUpdated => "net: MTUを更新しました\r\n",
            MsgKey::MigNetUsage => "usage: migrate net [mac|mtu] ...\r\n",
            MsgKey::MigNetMacUsage => "usage: migrate net mac [get|set xx:xx:xx:xx:xx:xx]\r\n",
            MsgKey::MigNetMtuUsage => "usage: migrate net mtu [get|set <n>]\r\n",
            MsgKey::MigNetEtherPrefix => "net: EtherType=0x",
            MsgKey::MigNetEtherUpdated => "net: EtherTypeを更新しました\r\n",
            MsgKey::MigNetEtherUsage => "usage: migrate net ether [get|set <hex>]\r\n",
            MsgKey::IommuCfgSaved => "iommu: 設定を保存しました\r\n",
            MsgKey::IommuCfgLoaded => "iommu: 設定を読み込みました\r\n",
        },
        Lang::Zh => match k {
            MsgKey::Banner => "Zerovisor: UEFI 引导已开始\r\n",
            MsgKey::Env => "环境: x86_64 UEFI 应用程序\r\n",
            MsgKey::Ready => "状态: 初始化完成\r\n",
            MsgKey::FeatVmx => "功能: Intel VMX\r\n",
            MsgKey::FeatSvm => "功能: AMD SVM\r\n",
            MsgKey::FeatEpt => "功能: Intel EPT（提示）\r\n",
            MsgKey::FeatNpt => "功能: AMD NPT\r\n",
            MsgKey::FeatVtd => "功能: Intel VT-d（ACPI DMAR）\r\n",
            MsgKey::FeatAmdvi => "功能: AMD-Vi（ACPI IVRS）\r\n",
            MsgKey::HpetPresent => "HPET: 已检测 base=0x",
            MsgKey::HpetNotFound => "HPET: 未找到\r\n",
            MsgKey::SmpExpected => "SMP: 预期CPU数=",
            MsgKey::SmpObserved => "SMP: 已观测AP ID数=",
            MsgKey::SmpPmOk => "SMP: AP 保护模式就绪\r\n",
            MsgKey::SmpPmNg => "SMP: AP 保护模式未就绪\r\n",
            MsgKey::SmpLmOk => "SMP: AP 长模式就绪\r\n",
            MsgKey::SmpLmNg => "SMP: AP 长模式未就绪\r\n",
            MsgKey::SmpLmCount => "SMP: AP 长模式计数=",
            MsgKey::SmpApicByte => "SMP: AP APIC-ID(低1字节)=",
            MsgKey::SmpApIds => "SMP: AP ID列表=",
            MsgKey::SmpReady => "SMP: AP READY=",
            MsgKey::VirtioScan => "VirtIO: 正在扫描ECAM段\r\n",
            MsgKey::VirtioNone => "VirtIO: 未找到设备\r\n",
            MsgKey::IommuVtdNone => "VT-d: 未找到DMAR\r\n",
            MsgKey::IommuAmdvNone => "AMD-Vi: 未找到IVRS\r\n",
            MsgKey::VirtioBlk => "VirtIO-blk: 容量=",
            MsgKey::VirtioBlkNone => "VirtIO-blk: 未找到\r\n",
            MsgKey::VirtioNet => "VirtIO-net: 已检测\r\n",
            MsgKey::VirtioNetNone => "VirtIO-net: 未找到\r\n",
            MsgKey::SecWpOn => "安全: CR0.WP=启用\r\n",
            MsgKey::SecWpOff => "安全: CR0.WP=未启用\r\n",
            MsgKey::SecSmepOn => "安全: CR4.SMEP=启用\r\n",
            MsgKey::SecSmepOff => "安全: CR4.SMEP=未启用\r\n",
            MsgKey::SecSmapOn => "安全: CR4.SMAP=启用\r\n",
            MsgKey::SecSmapOff => "安全: CR4.SMAP=未启用\r\n",
            MsgKey::SecNxeOn => "安全: EFER.NXE=启用\r\n",
            MsgKey::SecNxeOff => "安全: EFER.NXE=未启用\r\n",
            MsgKey::SecSummaryOk => "安全: 保护正常（WP/SMEP/SMAP/NXE）\r\n",
            MsgKey::SecSummaryNg => "安全: 保护未完全启用\r\n",
            MsgKey::MigTrackStartOk => "migrate: 已开始跟踪\r\n",
            MsgKey::MigTrackStartFail => "migrate: 启动失败\r\n",
            MsgKey::MigTrackStopOk => "migrate: 已停止跟踪\r\n",
            MsgKey::MigTrackStopFail => "migrate: 停止失败\r\n",
            MsgKey::MigChanNewOk => "migrate: 通道创建成功\r\n",
            MsgKey::MigChanNewFail => "migrate: 通道创建失败\r\n",
            MsgKey::MigChanCleared => "migrate: 通道已清空\r\n",
            MsgKey::MigNoBuffer => "migrate: 无缓冲区\r\n",
            MsgKey::MigNetMacPrefix => "net: MAC=",
            MsgKey::MigNetMtuPrefix => "net: MTU=",
            MsgKey::MigNetMacUpdated => "net: 已更新MAC\r\n",
            MsgKey::MigNetMtuUpdated => "net: 已更新MTU\r\n",
            MsgKey::MigNetUsage => "usage: migrate net [mac|mtu] ...\r\n",
            MsgKey::MigNetMacUsage => "usage: migrate net mac [get|set xx:xx:xx:xx:xx:xx]\r\n",
            MsgKey::MigNetMtuUsage => "usage: migrate net mtu [get|set <n>]\r\n",
            MsgKey::MigNetEtherPrefix => "net: EtherType=0x",
            MsgKey::MigNetEtherUpdated => "net: 已更新EtherType\r\n",
            MsgKey::MigNetEtherUsage => "usage: migrate net ether [get|set <hex>]\r\n",
            MsgKey::IommuCfgSaved => "iommu: 已保存配置\r\n",
            MsgKey::IommuCfgLoaded => "iommu: 已加载配置\r\n",
        },
    }
}

} // verus!
