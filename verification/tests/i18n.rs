use zerovisor::i18n::key;
use zerovisor::i18n::catalog::{key_from_name, message_text, name_of, MsgKey};
use zerovisor::i18n::{
    detect_lang, parse_platform_lang_ascii, read_lang_override, read_persisted_override, save_lang_override,
    set_lang_override, t, Lang, LangState,
};

#[test]
fn messages_in_each_language() {
    assert_eq!(t(Lang::En, "banner"), "Zerovisor: UEFI bootstrap started\r\n");
    assert_eq!(t(Lang::Ja, "ready"), "状態: 初期化完了\r\n");
    assert_eq!(t(Lang::Zh, "hpet_not_found"), "HPET: 未找到\r\n");
    assert_eq!(t(Lang::En, "iommu_cfg_loaded"), "iommu: cfg loaded\r\n");
    assert_eq!(t(Lang::Ja, "migrate_net_ether_prefix"), "net: EtherType=0x");
}

#[test]
fn unknown_keys_read_as_empty_line() {
    assert_eq!(t(Lang::En, "no_such_key"), "\r\n");
    assert_eq!(t(Lang::Zh, ""), "\r\n");
    assert_eq!(t(Lang::En, "Banner"), "\r\n");
}

#[test]
fn every_key_is_found_by_its_name() {
    let keys = [MsgKey::Banner, MsgKey::Env, MsgKey::VirtioNetNone, MsgKey::SecNxeOff, MsgKey::IommuCfgSaved];
    for k in keys {
        assert_eq!(key_from_name(name_of(k)), Some(k));
        for l in [Lang::En, Lang::Ja, Lang::Zh] {
            assert_eq!(t(l, name_of(k)), message_text(l, k));
        }
    }
}

#[test]
fn language_tags() {
    assert_eq!(parse_platform_lang_ascii(b"en-US\0"), Some(Lang::En));
    assert_eq!(parse_platform_lang_ascii(b"JA-jp"), Some(Lang::Ja));
    assert_eq!(parse_platform_lang_ascii(b"zh"), Some(Lang::Zh));
    assert_eq!(parse_platform_lang_ascii(b"fr-FR"), None);
    assert_eq!(parse_platform_lang_ascii(b"e\0n"), None);
    assert_eq!(parse_platform_lang_ascii(b""), None);
}

#[test]
fn override_then_persisted_then_platform() {
    let mut st = LangState::new();
    assert_eq!(detect_lang(&st, None, None), Lang::En);
    assert_eq!(detect_lang(&st, None, Some(b"zh-CN")), Lang::Zh);
    assert_eq!(detect_lang(&st, Some(b"ja"), Some(b"zh-CN")), Lang::Ja);
    set_lang_override(&mut st, Some(Lang::En));
    assert_eq!(read_lang_override(&st), Some(Lang::En));
    assert_eq!(detect_lang(&st, Some(b"ja"), Some(b"zh-CN")), Lang::En);
}

#[test]
fn saved_override_reads_back() {
    let mut st = LangState::new();
    for l in [Some(Lang::En), Some(Lang::Ja), Some(Lang::Zh)] {
        set_lang_override(&mut st, l);
        let saved = save_lang_override(&st);
        assert_eq!(read_persisted_override(Some(&saved)), l);
    }
    set_lang_override(&mut st, None);
    assert_eq!(save_lang_override(&st), b"auto\0".to_vec());
    assert_eq!(read_persisted_override(Some(b"auto\0")), None);
}

#[test]
fn every_catalogue_key_has_a_message_in_every_language() {
    let keys = [
        key::BANNER,
        key::ENV,
        key::READY,
        key::FEAT_VMX,
        key::FEAT_SVM,
        key::FEAT_EPT,
        key::FEAT_NPT,
        key::FEAT_VTD,
        key::FEAT_AMDVI,
        key::HPET_PRESENT,
        key::HPET_NOT_FOUND,
        key::SMP_EXPECTED,
        key::SMP_OBSERVED,
        key::SMP_PM_OK,
        key::SMP_PM_NG,
        key::SMP_LM_OK,
        key::SMP_LM_NG,
        key::SMP_LM_COUNT,
        key::SMP_APIC_BYTE,
        key::SMP_AP_IDS,
        key::SMP_READY,
        key::VIRTIO_SCAN,
        key::VIRTIO_NONE,
        key::IOMMU_VTD_NONE,
        key::IOMMU_AMDV_NONE,
        key::VIRTIO_BLK,
        key::VIRTIO_BLK_NONE,
        key::VIRTIO_NET,
        key::VIRTIO_NET_NONE,
        key::SEC_WP_ON,
        key::SEC_WP_OFF,
        key::SEC_SMEP_ON,
        key::SEC_SMEP_OFF,
        key::SEC_SMAP_ON,
        key::SEC_SMAP_OFF,
        key::SEC_NXE_ON,
        key::SEC_NXE_OFF,
        key::SEC_SUMMARY_OK,
        key::SEC_SUMMARY_NG,
        key::MIG_TRACK_START_OK,
        key::MIG_TRACK_START_FAIL,
        key::MIG_TRACK_STOP_OK,
        key::MIG_TRACK_STOP_FAIL,
        key::MIG_CHAN_NEW_OK,
        key::MIG_CHAN_NEW_FAIL,
        key::MIG_CHAN_CLEARED,
        key::MIG_NO_BUFFER,
        key::MIG_NET_MAC_PREFIX,
        key::MIG_NET_MTU_PREFIX,
        key::MIG_NET_MAC_UPDATED,
        key::MIG_NET_MTU_UPDATED,
        key::MIG_NET_USAGE,
        key::MIG_NET_MAC_USAGE,
        key::MIG_NET_MTU_USAGE,
        key::MIG_NET_ETHER_PREFIX,
        key::MIG_NET_ETHER_UPDATED,
        key::MIG_NET_ETHER_USAGE,
        key::IOMMU_CFG_SAVED,
        key::IOMMU_CFG_LOADED,
    ];
    for k in keys.iter() {
        for lang in [Lang::En, Lang::Ja, Lang::Zh] {
            let m = t(lang, k);
            assert!(m != "\r\n" && !m.is_empty(), "{} has no message", k);
        }
    }
}
