use motatool::bootloader::{
    bootloader_hw_id, bootloader_image_crc32, bootloader_target_id, version_valid,
    BootloaderBoard, BootloaderError, BOOTLOADER_BOARDS, IMAGE_SIZE, PACKAGE_SIZE,
    STORAGE_INTERNAL_UPDATE,
};
use motatool::format::{NRF52_APP_END, NRF52_FLASH_PAGE};

#[test]
fn t096_wire_identity_is_stable() {
    let hw = bootloader_hw_id(0x239A_0071, "T096_DFU").unwrap();
    assert_eq!(&hw[..24], b"NRF_BL_239A0071_T096_DFU");
    assert_eq!(
        bootloader_target_id(0x239A_0071, "T096_DFU").unwrap(),
        0x4235_4C85
    );
}

#[test]
fn version_rejects_sentinels_and_release_marker() {
    assert!(!version_valid(0));
    assert!(!version_valid(u32::MAX));
    assert!(!version_valid(0x0204_0400));
    assert!(version_valid(0x0204_0401));
}

#[test]
fn device_names_are_visible_ascii_of_at_most_fifteen_bytes() {
    for name in ["", "A B", "ABCDEFGHIJKLMNOP", "A\0", "Ä", "A\u{7f}"] {
        assert_eq!(
            bootloader_hw_id(0x239A_0071, name),
            Err(BootloaderError::InvalidIdentity)
        );
        assert_eq!(
            bootloader_target_id(0x239A_0071, name),
            Err(BootloaderError::InvalidIdentity)
        );
    }
    assert!(bootloader_hw_id(0x239A_0071, "ABCDEFGHIJKLMNO").is_ok());
    assert!(bootloader_hw_id(0, "A").is_err());
    assert!(bootloader_hw_id(u32::MAX, "A").is_err());
    assert!(bootloader_hw_id(0x2886_0044, "T096_DFU").is_err());
    let hw = bootloader_hw_id(0x2886_0045, "XIAO_DFU").unwrap();
    assert_eq!(&hw[..16], b"XIAO_BL_28860045");
    assert!(hw[16..].iter().all(|b| *b == 0));
    assert_eq!(bootloader_target_id(0x2886_0045, "anything"), Ok(0x2886_0045));
    assert_eq!(
        BootloaderError::InvalidIdentity.to_string(),
        "invalid embedded bootloader board/name identity"
    );
}

#[test]
fn shared_internal_boot_package_geometry_is_pinned() {
    let stage_start: u32 = (NRF52_APP_END - PACKAGE_SIZE as u32) & !(NRF52_FLASH_PAGE - 1);
    assert_eq!(stage_start, 0x000E_2000);
    assert_eq!(stage_start + IMAGE_SIZE as u32, 0x000E_C000);
    assert!(stage_start + PACKAGE_SIZE as u32 <= NRF52_APP_END);
    assert!(BOOTLOADER_BOARDS
        .into_iter()
        .filter(|board| board.storage_profile() == STORAGE_INTERNAL_UPDATE)
        .all(|board| board.storage_profile() == 0x0A));
}

#[test]
fn shared_vid_pid_identities_route_without_collisions() {
    let shared = [
        BootloaderBoard::MinewsemiMx25le01,
        BootloaderBoard::WiscoreRak3401,
        BootloaderBoard::WiscoreRak4631Board,
        BootloaderBoard::WismeshTag,
    ];
    assert!(shared.iter().all(|board| board.board_id() == 0x239A_0029));
    let mut targets: Vec<u32> = shared.iter().map(|board| board.target_id()).collect();
    targets.sort_unstable();
    targets.dedup();
    assert_eq!(targets.len(), shared.len());
    assert_eq!(BootloaderBoard::WiscoreRak3401.target_id(), 0x2381_8A80);
    assert_eq!(
        BootloaderBoard::WiscoreRak3401.hw_id_str(),
        "NRF_BL_239A0029_3401_DFU"
    );
    assert_eq!(BootloaderBoard::XiaoNrf52840Ble.target_id(), 0x2886_0044);
    assert_eq!(
        BootloaderBoard::XiaoNrf52840Ble.hw_id_str(),
        "XIAO_BL_28860044"
    );
}

#[test]
fn generic_target_ids_are_pinned_to_the_canonical_hw_hash() {
    for (board, expected) in [
        (BootloaderBoard::HeltecMeshTowerV2, 0x1150_F50E),
        (BootloaderBoard::HeltecMeshPocket, 0x0592_77F4),
        (BootloaderBoard::HeltecT096, 0x4235_4C85),
        (BootloaderBoard::HeltecT1, 0xFC55_6FFC),
        (BootloaderBoard::HeltecT114, 0x0C3F_2902),
        (BootloaderBoard::KeepteenLt1, 0xDB2E_7B51),
        (BootloaderBoard::MinewsemiMx25le01, 0x026A_A982),
        (BootloaderBoard::PromicroNrf52840, 0xAF79_E8CC),
        (BootloaderBoard::T1000E, 0xE6F5_F03F),
        (BootloaderBoard::ThinknodeM3, 0x0CA4_1DB2),
        (BootloaderBoard::WiscoreRak3401, 0x2381_8A80),
        (BootloaderBoard::WiscoreRak4631Board, 0x2D0D_F000),
        (BootloaderBoard::WismeshTag, 0xC72E_9C9C),
    ] {
        assert_eq!(board.target_id(), expected, "{}", board.name());
        assert_eq!(BootloaderBoard::from_target_id(expected), Some(board));
    }
    assert_eq!(BootloaderBoard::Gat562.target_id(), 0xD50D_2D44);
    assert_eq!(BootloaderBoard::from_target_id(1), None);
}

#[test]
fn crc_matches_standard_ieee_vector() {
    assert_eq!(bootloader_image_crc32(b"123456789", 9), 0xCBF4_3926);
}

#[test]
fn boards_are_found_by_identity_and_selector() {
    for board in BOOTLOADER_BOARDS {
        assert_eq!(
            BootloaderBoard::from_identity(board.board_id(), board.device_name()),
            Some(board)
        );
        assert_eq!(
            BootloaderBoard::from_selector(board.name()),
            Some((board, board.storage_profile()))
        );
        assert_eq!(board.profile_name(board.storage_profile()), Some(board.name()));
        assert_eq!(board.profile_name(0x0F), None);
    }
    assert_eq!(
        BootloaderBoard::from_selector("heltec_mesh_tower_v2_sdcard"),
        Some((BootloaderBoard::HeltecMeshTowerV2, 0x09))
    );
    assert_eq!(BootloaderBoard::from_selector("unknown"), None);
    assert_eq!(BootloaderBoard::from_identity(0x239A_0029, "T096_DFU"), None);
}
