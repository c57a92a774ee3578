//! The names of the catalogue's messages.

use vstd::prelude::*;

verus! {

pub const BANNER: &'static str = "banner";
pub const ENV: &'static str = "env";
pub const READY: &'static str = "ready";
pub const FEAT_VMX: &'static str = "feat_vmx";
pub const FEAT_SVM: &'static str = "feat_svm";
pub const FEAT_EPT: &'static str = "feat_ept";
pub const FEAT_NPT: &'static str = "feat_npt";
pub const FEAT_VTD: &'static str = "feat_vtd";
pub const FEAT_AMDVI: &'static str = "feat_amdvi";
pub const HPET_PRESENT: &'static str = "hpet_present";
pub const HPET_NOT_FOUND: &'static str = "hpet_not_found";
pub const SMP_EXPECTED: &'static str = "smp_expected";
pub const SMP_OBSERVED: &'static str = "smp_observed";
pub const SMP_PM_OK: &'static str = "smp_pm_ok";
pub const SMP_PM_NG: &'static str = "smp_pm_ng";
pub const SMP_LM_OK: &'static str = "smp_lm_ok";
pub const SMP_LM_NG: &'static str = "smp_lm_ng";
pub const SMP_LM_COUNT: &'static str = "smp_lm_count";
pub const SMP_APIC_BYTE: &'static str = "smp_apic_byte";
pub const SMP_AP_IDS: &'static str = "smp_ap_ids";
pub const SMP_READY: &'static str = "smp_ready";
pub const VIRTIO_SCAN: &'static str = "virtio_scan";
pub const VIRTIO_NONE: &'static str = "virtio_none";
pub const IOMMU_VTD_NONE: &'static str = "iommu_vtd_none";
pub const IOMMU_AMDV_NONE: &'static str = "iommu_amdv_none";
pub const VIRTIO_BLK: &'static str = "virtio_blk";
pub const VIRTIO_BLK_NONE: &'static str = "virtio_blk_none";
pub const VIRTIO_NET: &'static str = "virtio_net";
pub const VIRTIO_NET_NONE: &'static str = "virtio_net_none";
pub const SEC_WP_ON: &'static str = "sec_wp_on";
pub const SEC_WP_OFF: &'static str = "sec_wp_off";
pub const SEC_SMEP_ON: &'static str = "sec_smep_on";
pub const SEC_SMEP_OFF: &'static str = "sec_smep_off";
pub const SEC_SMAP_ON: &'static str = "sec_smap_on";
pub const SEC_SMAP_OFF: &'static str = "sec_smap_off";
pub const SEC_NXE_ON: &'static str = "sec_nxe_on";
pub const SEC_NXE_OFF: &'static str = "sec_nxe_off";
pub const SEC_SUMMARY_OK: &'static str = "sec_summary_ok";
pub const SEC_SUMMARY_NG: &'static str = "sec_summary_ng";
pub const MIG_TRACK_START_OK: &'static str = "migrate_track_start_ok";
pub const MIG_TRACK_START_FAIL: &'static str = "migrate_track_start_fail";
pub const MIG_TRACK_STOP_OK: &'static str = "migrate_track_stop_ok";
pub const MIG_TRACK_STOP_FAIL: &'static str = "migrate_track_stop_fail";
pub const MIG_CHAN_NEW_OK: &'static str = "migrate_chan_new_ok";
pub const MIG_CHAN_NEW_FAIL: &'static str = "migrate_chan_new_fail";
pub const MIG_CHAN_CLEARED: &'static str = "migrate_chan_cleared";
pub const MIG_NO_BUFFER: &'static str = "migrate_no_buffer";
pub const MIG_NET_MAC_PREFIX: &'static str = "migrate_net_mac_prefix";
pub const MIG_NET_MTU_PREFIX: &'static str = "migrate_net_mtu_prefix";
pub const MIG_NET_MAC_UPDATED: &'static str = "migrate_net_mac_updated";
pub const MIG_NET_MTU_UPDATED: &'static str = "migrate_net_mtu_updated";
pub const MIG_NET_USAGE: &'static str = "migrate_net_usage";
pub const MIG_NET_MAC_USAGE: &'static str = "migrate_net_mac_usage";
pub const MIG_NET_MTU_USAGE: &'static str = "migrate_net_mtu_usage";
pub const MIG_NET_ETHER_PREFIX: &'static str = "migrate_net_ether_prefix";
pub const MIG_NET_ETHER_UPDATED: &'static str = "migrate_net_ether_updated";
pub const MIG_NET_ETHER_USAGE: &'static str = "migrate_net_ether_usage";
pub const IOMMU_CFG_SAVED: &'static str = "iommu_cfg_saved";
pub const IOMMU_CFG_LOADED: &'static str = "iommu_cfg_loaded";

} // verus!
