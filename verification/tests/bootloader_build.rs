use ed25519_dalek::SigningKey;
use motatool::bootloader::{
    bootloader_image_crc32, bootloader_version_str, build_bootloader,
    extract_bootloader_region_from_hex, validate_bootloader_image_for_profile,
    validate_bootloader_inventory, BootloaderBoard, BootloaderBuildOpts, BOOTLOADER_BOARDS,
    CANDIDATE_MANIFEST_OFFSET, CAPS_MAGIC, CONTINUITY_MAGIC, IMAGE_SIZE, IMAGE_START,
    MANIFEST_MAGIC, PACKAGE_SIZE, STORAGE_INTERNAL_UPDATE, STORAGE_SD_UPDATE,
};
use motatool::bootpack::{check_asserted_version, BootPackageError};
use motatool::format::{BOOT_FORMAT_VER, MFLAG_BOOTLOADER, MFLAG_FULL, MFLAG_SIGNED};
use motatool::ihex::{flat_image_from_hex, HexError};
use motatool::report::{boot_built_report, package_target_label, package_version_str};
use motatool::{verify, Built, Manifest};

const BOOT_VERSION: u32 = 0x0204_03FF;
const CAPS_OFFSET: usize = 0x80;
const TEST_SEED: [u8; 32] = [0x42; 32];

fn wr_u16(bytes: &mut [u8], offset: usize, value: u16) {
    bytes[offset..offset + 2].copy_from_slice(&value.to_le_bytes());
}

fn wr_u32(bytes: &mut [u8], offset: usize, value: u32) {
    bytes[offset..offset + 4].copy_from_slice(&value.to_le_bytes());
}

fn synthetic_image(board: BootloaderBoard, storage: u8) -> Vec<u8> {
    let mut image = vec![0xFF; IMAGE_SIZE];
    wr_u32(&mut image, 0, 0x2004_0000);
    wr_u32(&mut image, 4, IMAGE_START + 0x101);

    image[CAPS_OFFSET..CAPS_OFFSET + 8].copy_from_slice(&CAPS_MAGIC);
    wr_u16(&mut image, CAPS_OFFSET + 8, 3);
    wr_u16(&mut image, CAPS_OFFSET + 10, 0x0005);
    image[CAPS_OFFSET + 12] = storage;
    image[CAPS_OFFSET + 13..CAPS_OFFSET + 16].fill(0);

    let manifest: usize = CANDIDATE_MANIFEST_OFFSET;
    image[manifest..manifest + 8].copy_from_slice(&MANIFEST_MAGIC);
    wr_u16(&mut image, manifest + 8, 1);
    wr_u16(&mut image, manifest + 10, 44);
    wr_u32(&mut image, manifest + 12, IMAGE_START);
    wr_u32(&mut image, manifest + 16, IMAGE_SIZE as u32);
    wr_u32(&mut image, manifest + 20, board.board_id());
    image[manifest + 24..manifest + 40].fill(0);
    let name = board.device_name().as_bytes();
    image[manifest + 24..manifest + 24 + name.len()].copy_from_slice(name);

    let continuity: usize = manifest + 44;
    image[continuity..continuity + 8].copy_from_slice(&CONTINUITY_MAGIC);
    wr_u16(&mut image, continuity + 8, 2);
    wr_u16(&mut image, continuity + 10, 32);
    wr_u32(&mut image, continuity + 12, BOOT_VERSION);
    let compatibility = board.compatibility();
    wr_u16(&mut image, continuity + 16, compatibility.softdevice_family);
    wr_u16(&mut image, continuity + 18, compatibility.softdevice_fwid);
    wr_u32(&mut image, continuity + 20, compatibility.app_base);
    wr_u16(&mut image, continuity + 24, compatibility.layout_abi);
    wr_u16(&mut image, continuity + 26, 0);
    wr_u32(&mut image, continuity + 28, 0);

    let crc_offset: usize = manifest + 40;
    image[crc_offset..crc_offset + 4].fill(0);
    let crc: u32 = bootloader_image_crc32(&image, crc_offset);
    wr_u32(&mut image, crc_offset, crc);
    image
}

fn build_for(board: BootloaderBoard, storage: u8) -> Built {
    match build_bootloader(&BootloaderBuildOpts {
        image: synthetic_image(board, storage),
        board,
        storage_profile: storage,
        sign_seed: TEST_SEED,
    }) {
        Ok(built) => built,
        Err(e) => panic!("{}", e.to_string()),
    }
}

#[test]
fn qualified_inventory_builds_exact_v3_packages() {
    validate_bootloader_inventory().unwrap();
    for board in BOOTLOADER_BOARDS {
        let built = build_for(board, board.storage_profile());
        assert_eq!(built.bytes.len(), PACKAGE_SIZE, "{}", board.name());
        assert_eq!(built.manifest.format_ver, BOOT_FORMAT_VER);
        assert_eq!(
            built.manifest.flags,
            MFLAG_FULL | MFLAG_SIGNED | MFLAG_BOOTLOADER
        );
        assert_eq!(built.manifest.target_id, board.target_id());
        assert_eq!(built.manifest.hw_id, board.hw_id());
        assert_eq!(built.manifest.fw_version, BOOT_VERSION);
        assert_eq!(built.manifest.block_count, 40);
        assert!(built.inplace_memory.is_none());
        assert!(verify(&built.bytes).is_empty(), "{}", board.name());
        assert!(built.suggested_name.contains("_bootloader_"));
        assert_eq!(
            package_target_label(&built.manifest, &built.bytes, "unused"),
            board.name()
        );
    }

    let sd = build_for(BootloaderBoard::HeltecMeshTowerV2, STORAGE_SD_UPDATE);
    assert!(verify(&sd.bytes).is_empty());
    assert_eq!(
        package_target_label(&sd.manifest, &sd.bytes, "unused"),
        "heltec_mesh_tower_v2_sdcard"
    );
}

#[test]
fn a_package_carries_the_image_as_its_payload() {
    for board in BOOTLOADER_BOARDS {
        let image = synthetic_image(board, board.storage_profile());
        let built = build_for(board, board.storage_profile());
        let manifest = Manifest::parse(&built.bytes).unwrap_or_else(|e| panic!("{}", e.to_string()));
        assert_eq!(manifest.image_size, IMAGE_SIZE as u32);
        assert_eq!(manifest.payload_size, IMAGE_SIZE as u32);
        assert_eq!(manifest.block_size(), 1024);
        let start: usize = manifest.payload_off();
        assert_eq!(built.bytes[start..start + IMAGE_SIZE], image[..], "{}", board.name());
    }
}

#[test]
fn selected_board_and_storage_profile_are_enforced() {
    let t096 = synthetic_image(BootloaderBoard::HeltecT096, STORAGE_INTERNAL_UPDATE);
    assert!(validate_bootloader_image_for_profile(
        &t096,
        BootloaderBoard::HeltecT1,
        STORAGE_INTERNAL_UPDATE
    )
    .is_err());

    let tower_sd = synthetic_image(BootloaderBoard::HeltecMeshTowerV2, STORAGE_SD_UPDATE);
    assert!(validate_bootloader_image_for_profile(
        &tower_sd,
        BootloaderBoard::HeltecMeshTowerV2,
        STORAGE_INTERNAL_UPDATE
    )
    .is_err());
    assert_eq!(
        validate_bootloader_image_for_profile(
            &tower_sd,
            BootloaderBoard::HeltecMeshTowerV2,
            STORAGE_INTERNAL_UPDATE
        )
        .unwrap_err(),
        BootPackageError::Storage(0x09, 0x0A)
    );
}

#[test]
fn wrong_base_vs_sense_selection_is_rejected() {
    let opts = |image: BootloaderBoard, board: BootloaderBoard| BootloaderBuildOpts {
        image: synthetic_image(image, image.storage_profile()),
        board,
        storage_profile: board.storage_profile(),
        sign_seed: TEST_SEED,
    };
    let error = build_bootloader(&opts(
        BootloaderBoard::XiaoNrf52840BleSense,
        BootloaderBoard::XiaoNrf52840Ble,
    ))
    .err()
    .unwrap()
    .to_string();
    assert!(error.contains("board_id"), "{error}");

    let error = build_bootloader(&opts(
        BootloaderBoard::XiaoNrf52840Ble,
        BootloaderBoard::XiaoNrf52840BleSense,
    ))
    .err()
    .unwrap()
    .to_string();
    assert!(error.contains("board_id"), "{error}");
}

#[test]
fn bootloader_version_labels_stable_and_preview_builds() {
    assert_eq!(bootloader_version_str(0x0204_03FF), "2.4.3");
    assert_eq!(bootloader_version_str(0x0204_030D), "2.4.3-preview.13");
}

#[test]
fn asserted_versions_must_match() {
    assert_eq!(check_asserted_version("2.4.3.255", 0x0204_03FF), Ok(()));
    assert_eq!(
        check_asserted_version("2.4.3", 0x0204_03FF).unwrap_err().to_string(),
        "--fw-version 2.4.3-preview.0 does not match embedded bootloader version 2.4.3"
    );
    assert_eq!(
        check_asserted_version("x", 1).unwrap_err().to_string(),
        "bad version: \"x\""
    );
}

#[test]
fn qualified_inventory_matches_release_contract() {
    let expected = [
        (
            BootloaderBoard::XiaoNrf52840Ble,
            0x2886_0044,
            "XIAO_BL_28860044",
            0x0123,
            0x0002_7000,
            0x0E,
        ),
        (
            BootloaderBoard::XiaoNrf52840BleSense,
            0x2886_0045,
            "XIAO_BL_28860045",
            0x0123,
            0x0002_7000,
            0x0E,
        ),
        (
            BootloaderBoard::HeltecMeshTowerV2,
            0x1150_F50E,
            "NRF_BL_239A0071_TOWER_V2_OTA",
            0x00B6,
            0x0002_6000,
            0x0A,
        ),
        (
            BootloaderBoard::HeltecMeshPocket,
            0x0592_77F4,
            "NRF_BL_239A0071_MESH_POCKET_OTA",
            0x00B6,
            0x0002_6000,
            0x0A,
        ),
        (
            BootloaderBoard::HeltecT096,
            0x4235_4C85,
            "NRF_BL_239A0071_T096_DFU",
            0x00B6,
            0x0002_6000,
            0x0A,
        ),
        (
            BootloaderBoard::HeltecT1,
            0xFC55_6FFC,
            "NRF_BL_239A0071_T1_DFU",
            0x00B6,
            0x0002_6000,
            0x0A,
        ),
        (
            BootloaderBoard::HeltecT114,
            0x0C3F_2902,
            "NRF_BL_239A0071_T114_DFU",
            0x00B6,
            0x0002_6000,
            0x0A,
        ),
        (
            BootloaderBoard::KeepteenLt1,
            0xDB2E_7B51,
            "NRF_BL_239A00B3_KeepteenLT1_OTA",
            0x00B6,
            0x0002_6000,
            0x0A,
        ),
        (
            BootloaderBoard::MinewsemiMx25le01,
            0x026A_A982,
            "NRF_BL_239A0029_MX25_DFU",
            0x0123,
            0x0002_7000,
            0x0A,
        ),
        (
            BootloaderBoard::PromicroNrf52840,
            0xAF79_E8CC,
            "NRF_BL_239A00B3_PROM_DFU",
            0x00B6,
            0x0002_6000,
            0x0A,
        ),
        (
            BootloaderBoard::T1000E,
            0xE6F5_F03F,
            "NRF_BL_28860057_T1KE_DFU",
            0x0123,
            0x0002_7000,
            0x0A,
        ),
        (
            BootloaderBoard::ThinknodeM3,
            0x0CA4_1DB2,
            "NRF_BL_239A00DA_TNM3_DFU",
            0x00B6,
            0x0002_6000,
            0x0A,
        ),
        (
            BootloaderBoard::WiscoreRak3401,
            0x2381_8A80,
            "NRF_BL_239A0029_3401_DFU",
            0x00B6,
            0x0002_6000,
            0x0A,
        ),
        (
            BootloaderBoard::WiscoreRak4631Board,
            0x2D0D_F000,
            "NRF_BL_239A0029_4631_DFU",
            0x00B6,
            0x0002_6000,
            0x0A,
        ),
        (
            BootloaderBoard::WismeshTag,
            0xC72E_9C9C,
            "NRF_BL_239A0029_RTAG_DFU",
            0x00B6,
            0x0002_6000,
            0x0A,
        ),
    ];

    for ((board, target_id, hw_id, fwid, app_base, storage), listed) in
        expected.into_iter().zip(BOOTLOADER_BOARDS)
    {
        assert_eq!(board, listed);
        assert_eq!(board.target_id(), target_id, "{}", board.name());
        assert_eq!(board.hw_id_str(), hw_id, "{}", board.name());
        assert_eq!(board.compatibility().softdevice_family, 140);
        assert_eq!(board.compatibility().softdevice_fwid, fwid);
        assert_eq!(board.compatibility().app_base, app_base);
        assert_eq!(board.compatibility().layout_abi, 1);
        assert_eq!(board.storage_profile(), storage);
    }
    assert_eq!(
        BootloaderBoard::HeltecMeshTowerV2.profile_name(STORAGE_SD_UPDATE),
        Some("heltec_mesh_tower_v2_sdcard")
    );
}

fn hex_record(address: u16, record_type: u8, data: &[u8]) -> String {
    let mut bytes = Vec::with_capacity(data.len() + 4);
    bytes.push(data.len() as u8);
    bytes.extend_from_slice(&address.to_be_bytes());
    bytes.push(record_type);
    bytes.extend_from_slice(data);
    let checksum: u8 =
        0u8.wrapping_sub(bytes.iter().fold(0u8, |sum, byte| sum.wrapping_add(*byte)));
    let mut line = String::from(":");
    for byte in bytes {
        line.push_str(&format!("{byte:02X}"));
    }
    line.push_str(&format!("{checksum:02X}\n"));
    line
}

fn image_as_intel_hex(image: &[u8]) -> String {
    let mut output = hex_record(0, 4, &[0x00, 0x0F]);
    for (offset, chunk) in image.chunks(16).enumerate() {
        output.push_str(&hex_record(0x4000 + (offset * 16) as u16, 0, chunk));
    }
    output.push_str(":00000001FF\n");
    output
}

#[test]
fn hex_extraction_clips_outside_region_and_fills_holes() {
    let lower = (0x10..0x20).collect::<Vec<u8>>();
    let upper = (0x80..0x90).collect::<Vec<u8>>();
    let mut encoded = hex_record(0, 4, &[0x00, 0x0F]);
    encoded.push_str(&hex_record(0x3FF8, 0, &lower));
    encoded.push_str(&hex_record(0xDFF8, 0, &upper));
    encoded.push_str(":00000001FF\n");

    let image = extract_bootloader_region_from_hex(encoded.as_bytes()).unwrap();
    assert_eq!(&image[..8], &lower[8..]);
    assert!(image[8..IMAGE_SIZE - 8].iter().all(|byte| *byte == 0xFF));
    assert_eq!(&image[IMAGE_SIZE - 8..], &upper[..8]);

    let mut conflicting = hex_record(0, 4, &[0x00, 0x0F]);
    conflicting.push_str(&hex_record(0x4000, 0, &[0xAA]));
    conflicting.push_str(&hex_record(0x4000, 0, &[0xBB]));
    conflicting.push_str(":00000001FF\n");
    let error = extract_bootloader_region_from_hex(conflicting.as_bytes())
        .unwrap_err()
        .to_string();
    assert!(error.contains("conflicting Intel HEX data"), "{error}");
    assert!(error.contains("0xF4000"), "{error}");
}

#[test]
fn hex_files_are_read_and_refused() {
    let mut flat = hex_record(0, 2, &[0x10, 0x00]);
    flat.push_str(&hex_record(0x0010, 0, &[1, 2, 3]));
    flat.push_str("\r\n");
    flat.push_str(&hex_record(0x0014, 0, &[5]).replace('\n', " \r\n"));
    flat.push_str(&hex_record(0, 5, &[0, 0, 0, 0]));
    flat.push_str(":00000001FF\nnot looked at");
    assert_eq!(flat_image_from_hex(flat.as_bytes()).unwrap(), vec![1, 2, 3, 0xFF, 5]);

    let cases: [(&str, HexError); 8] = [
        ("", HexError::MissingEnd),
        (":0100000001FE\n", HexError::MissingEnd),
        ("x", HexError::Syntax(1)),
        ("\n:0g000001FF", HexError::Syntax(2)),
        (":00000001F", HexError::Syntax(1)),
        (":02000001FD", HexError::Length(1)),
        (":00000001FE", HexError::Checksum(1)),
        (":00000006FA", HexError::RecordType(1)),
    ];
    for (text, error) in cases {
        assert_eq!(flat_image_from_hex(text.as_bytes()), Err(error), "{text}");
        assert_eq!(extract_bootloader_region_from_hex(text.as_bytes()), Err(error));
    }
    assert_eq!(flat_image_from_hex(b":00000001FF"), Err(HexError::NoData));
    assert_eq!(
        extract_bootloader_region_from_hex(b":00000001FF").unwrap(),
        vec![0xFF; IMAGE_SIZE]
    );
    assert_eq!(flat_image_from_hex(b":0100000401FA\n"), Err(HexError::Length(1)));
}

#[test]
fn package_from_hex_carries_the_signer() {
    let board = BootloaderBoard::HeltecT096;
    let image = synthetic_image(board, STORAGE_INTERNAL_UPDATE);
    let encoded = image_as_intel_hex(&image);
    assert_eq!(
        extract_bootloader_region_from_hex(encoded.as_bytes()).unwrap(),
        image
    );
    let built = build_for(board, STORAGE_INTERNAL_UPDATE);
    let manifest = Manifest::parse(&built.bytes).unwrap();
    assert_eq!(
        manifest.signer,
        SigningKey::from_bytes(&TEST_SEED).verifying_key().to_bytes()
    );
    assert_eq!(package_version_str(&manifest), "2.4.3");
    let name = hex::encode_upper(manifest.merkle_root);
    assert_eq!(
        built.suggested_name,
        format!("NRF_BL_239A0071_T096_DFU_42354C85_v2.4.3_bootloader_{name}.mota")
    );
    let id =
        validate_bootloader_image_for_profile(&image, board, STORAGE_INTERNAL_UPDATE).unwrap();
    assert_eq!(
        boot_built_report(board.name(), &manifest, &id, built.bytes.len()),
        [
            "  bootloader  board=heltec_t096  target=42354C85  v2.4.3  signed",
            "  region=0x000F4000..0x000FE000  image=40960B  blocks=40  total=41330B",
            "  continuity=S140 FWID=0x00B6 app_base=0x00026000 layout_abi=1",
        ]
    );
}
