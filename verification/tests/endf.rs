use motatool::endf::{
    build_nrf52_layout, ensure_endf, has_endf, pack_version, parse_ident, parse_nrf52_layout,
    target_id_for_env, version_str, LayoutError, Nrf52Layout,
};
use motatool::format::{
    cstr, FwIdent, ENDF_LEN, NRF52_APP_BASE_S140_V6, NRF52_APP_BASE_S140_V7, NRF52_APP_END,
    NRF52_BOOT_SCRATCH_START, NRF52_EXTRAFS_START, NRF52_LAYOUT_FLAG_BOOTLOADER_SCRATCH,
    NRF52_LAYOUT_FLAG_HYBRID_RAM, NRF52_LAYOUT_FLAG_INTERNAL_EXTRAFS, NRF52_LAYOUT_FLAG_QSPI,
    NRF52_LAYOUT_FLAG_SD, NRF52_LAYOUT_VERSION,
};
use motatool::version::VersionError;

#[test]
fn version_roundtrip() {
    assert_eq!(pack_version("1.17.0").unwrap(), 0x0111_0000);
    assert_eq!(version_str(0x0111_0000), "1.17.0");
    assert!(pack_version("1..2").is_err());
    assert!(pack_version("").is_err());
    assert!(pack_version("1.2.x").is_err());
}

#[test]
fn version_components_are_clamped_and_bounded() {
    assert_eq!(pack_version("1").unwrap(), 0x0100_0000);
    assert_eq!(pack_version("2.4.3.255").unwrap(), 0x0204_03FF);
    assert_eq!(pack_version("300.256.255.4294967295").unwrap(), 0xFFFF_FFFF);
    assert_eq!(pack_version("1.2.3.4.x").unwrap(), 0x0102_0304);
    assert_eq!(pack_version("0000000000001.2").unwrap(), 0x0102_0000);
    assert_eq!(
        pack_version("4294967296").unwrap_err(),
        VersionError::TooLarge("4294967296".to_string())
    );
    assert_eq!(
        pack_version("99999999999999999999x").unwrap_err(),
        VersionError::Bad("99999999999999999999x".to_string())
    );
    assert_eq!(
        pack_version("1.\n").unwrap_err().to_string(),
        "bad version: \"1.\\n\""
    );
    assert_eq!(
        pack_version("1.2.4294967296").unwrap_err().to_string(),
        "version component too large: \"1.2.4294967296\""
    );
    assert_eq!(version_str(0xFF00_10AB), "255.0.16");
}

#[test]
fn version_text_packs_back_without_its_last_byte() {
    for v in [0u32, 0x0102_0304, 0xFFFF_FFFF, 0x0A00_FF01] {
        assert_eq!(pack_version(&version_str(v)).unwrap(), v - v % 256);
        let full = format!("{}.{}", version_str(v), v % 256);
        assert_eq!(pack_version(&full).unwrap(), v);
    }
}

#[test]
fn ensure_endf_is_idempotent() {
    let img = vec![0xABu8; 200];
    let id = FwIdent {
        fw_version: 0x0111_0000,
        target_id: 0x04D4_13FD,
        hw_id: "RAK4631".into(),
    };
    let (trailed, h1) = ensure_endf(&img, &id);
    assert!(has_endf(&trailed));
    let (again, h2) = ensure_endf(&trailed, &id);
    assert_eq!(trailed, again); // no double trailer
    assert_eq!(h1, h2);
    let back = parse_ident(&trailed);
    assert_eq!(back.target_id, id.target_id);
    assert_eq!(back.hw_id, "RAK4631");
}

#[test]
fn trailer_has_its_documented_layout() {
    let id = FwIdent {
        fw_version: 0x0111_0000,
        target_id: 0x04D4_13FD,
        hw_id: "RAK4631".into(),
    };
    let (image, hash) = ensure_endf(b"abc", &id);
    assert_eq!(image.len(), 3 + ENDF_LEN);
    assert_eq!(&image[..3], b"abc");
    assert_eq!(&image[3..7], b"EndF");
    assert_eq!(&image[7..11], &[3u8, 0, 0, 0]);
    // SHA-256("abc") starts ba7816bf 8f01cfea.
    assert_eq!(hash, [0xBA, 0x78, 0x16, 0xBF, 0x8F, 0x01, 0xCF, 0xEA]);
    assert_eq!(&image[11..19], &hash);
    assert_eq!(&image[19..23], &[0x00u8, 0x00, 0x11, 0x01]);
    assert_eq!(&image[23..27], &[0xFDu8, 0x13, 0xD4, 0x04]);
    assert_eq!(&image[27..34], b"RAK4631");
    assert!(image[34..].iter().all(|b| *b == 0));
}

#[test]
fn a_changed_body_or_trailer_is_not_trailed() {
    let (image, _) = ensure_endf(&[7u8; 100], &FwIdent::default());
    let mut body = image.clone();
    body[3] ^= 1;
    assert!(!has_endf(&body));
    assert_eq!(parse_ident(&body), FwIdent::default());
    let mut length = image.clone();
    length[104] ^= 1;
    assert!(!has_endf(&length));
    assert!(!has_endf(&image[1..]));
    assert!(!has_endf(&[]));
}

#[test]
fn overlong_and_malformed_hardware_ids() {
    let id = FwIdent {
        fw_version: 1,
        target_id: 2,
        hw_id: "0123456789012345678901234567890123456789".into(),
    };
    let (image, _) = ensure_endf(b"body", &id);
    assert_eq!(parse_ident(&image).hw_id, "01234567890123456789012345678901");
    assert_eq!(cstr(b"AB\0CD"), "AB");
    assert_eq!(cstr(&[0x41, 0xFF, 0x42]), "A\u{FFFD}B");
    assert_eq!(cstr("héé\0".as_bytes()), "héé");
}

#[test]
fn nrf52_layout_roundtrips_inside_endf_body() {
    let layout = Nrf52Layout {
        app_base: NRF52_APP_BASE_S140_V6,
        linked_app_end: NRF52_APP_END,
        stage_ceiling: NRF52_APP_END,
        flags: 0,
    };
    let mut body = vec![0xA5; 1234];
    body.extend_from_slice(&build_nrf52_layout(layout).unwrap());
    let (image, _) = ensure_endf(&body, &FwIdent::default());
    assert_eq!(parse_nrf52_layout(&image).unwrap(), Some(layout));

    let (legacy, _) = ensure_endf(&body[..1234], &FwIdent::default());
    assert_eq!(parse_nrf52_layout(&legacy).unwrap(), None);
}

#[test]
fn nrf52_layout_marker_fails_closed_when_invalid() {
    let layout = Nrf52Layout {
        app_base: NRF52_APP_BASE_S140_V7,
        linked_app_end: NRF52_APP_END,
        stage_ceiling: NRF52_APP_END,
        flags: NRF52_LAYOUT_FLAG_QSPI,
    };
    let mut record = build_nrf52_layout(layout).unwrap();
    record[8] = NRF52_LAYOUT_VERSION + 1;
    let (image, _) = ensure_endf(&record, &FwIdent::default());
    let err = parse_nrf52_layout(&image).unwrap_err().to_string();
    assert!(err.contains("version"), "unexpected error: {err}");
}

#[test]
fn nrf52_layout_rejects_conflicting_storage_geometry() {
    for layout in [
        Nrf52Layout {
            app_base: NRF52_APP_BASE_S140_V7,
            linked_app_end: NRF52_APP_END,
            stage_ceiling: NRF52_APP_END,
            flags: NRF52_LAYOUT_FLAG_SD | NRF52_LAYOUT_FLAG_QSPI,
        },
        Nrf52Layout {
            app_base: NRF52_APP_BASE_S140_V7,
            linked_app_end: NRF52_EXTRAFS_START,
            stage_ceiling: NRF52_EXTRAFS_START,
            flags: 0,
        },
    ] {
        assert!(build_nrf52_layout(layout).is_err());
    }
}

#[test]
fn each_layout_rule_has_its_error() {
    let good = Nrf52Layout {
        app_base: NRF52_APP_BASE_S140_V6,
        linked_app_end: NRF52_APP_END,
        stage_ceiling: NRF52_APP_END,
        flags: 0,
    };
    assert_eq!(good.validate(), Ok(()));
    let base = Nrf52Layout { app_base: 0x1000, ..good };
    assert_eq!(base.validate(), Err(LayoutError::AppBase(0x1000)));
    assert_eq!(
        base.validate().unwrap_err().to_string(),
        "unsupported nRF52 app base 0x1000"
    );
    let end = Nrf52Layout { linked_app_end: 0xED001, ..good };
    assert_eq!(end.validate(), Err(LayoutError::LinkedAppEnd(0xED001)));
    let ceiling = Nrf52Layout { stage_ceiling: 0, ..good };
    assert_eq!(ceiling.validate(), Err(LayoutError::StageCeiling(0)));
    let flags = Nrf52Layout { flags: 0x80, ..good };
    assert_eq!(flags.validate(), Err(LayoutError::Flags(0x80)));
    let both = Nrf52Layout {
        flags: NRF52_LAYOUT_FLAG_SD | NRF52_LAYOUT_FLAG_QSPI,
        ..good
    };
    assert_eq!(both.validate(), Err(LayoutError::SdAndQspi));
    let extra = Nrf52Layout {
        flags: NRF52_LAYOUT_FLAG_SD | NRF52_LAYOUT_FLAG_INTERNAL_EXTRAFS,
        ..good
    };
    assert_eq!(extra.validate(), Err(LayoutError::ExternalExtraFs));
    let scratch = Nrf52Layout {
        flags: NRF52_LAYOUT_FLAG_BOOTLOADER_SCRATCH,
        ..good
    };
    assert_eq!(scratch.validate(), Err(LayoutError::ScratchWithoutQspi));
    let reserved = Nrf52Layout {
        linked_app_end: NRF52_BOOT_SCRATCH_START,
        ..good
    };
    assert_eq!(reserved.validate(), Err(LayoutError::ScratchGeometry));
    let mismatch = Nrf52Layout {
        stage_ceiling: NRF52_EXTRAFS_START,
        ..good
    };
    assert_eq!(
        mismatch.validate().unwrap_err().to_string(),
        "nRF52 staging ceiling 0xD4000 is inconsistent with layout flags"
    );
    let xiao = Nrf52Layout {
        app_base: NRF52_APP_BASE_S140_V7,
        linked_app_end: NRF52_BOOT_SCRATCH_START,
        stage_ceiling: NRF52_APP_END,
        flags: NRF52_LAYOUT_FLAG_QSPI | NRF52_LAYOUT_FLAG_BOOTLOADER_SCRATCH,
    };
    assert_eq!(xiao.validate(), Ok(()));
    assert_eq!(xiao.flags, 0x0C);
    assert_eq!(xiao.application_ceiling(), 0x000E_0000);
    assert!(xiao.qspi_backed() && xiao.external_backed() && !xiao.sd_backed());
    let internal = Nrf52Layout {
        stage_ceiling: NRF52_EXTRAFS_START,
        flags: NRF52_LAYOUT_FLAG_INTERNAL_EXTRAFS | NRF52_LAYOUT_FLAG_HYBRID_RAM,
        ..good
    };
    assert_eq!(internal.validate(), Ok(()));
    assert!(internal.uses_internal_extrafs() && internal.hybrid_ram());
    assert_eq!(internal.application_ceiling(), NRF52_APP_END);
    let mut record = build_nrf52_layout(good).unwrap();
    record[10] = 25;
    let (image, _) = ensure_endf(&record, &FwIdent::default());
    assert_eq!(
        parse_nrf52_layout(&image),
        Err(LayoutError::RecordLength(25))
    );
}

#[test]
fn target_id_is_the_start_of_the_name_digest() {
    // SHA-256("abc") starts ba7816bf.
    assert_eq!(target_id_for_env("abc"), 0xBF16_78BA);
}
