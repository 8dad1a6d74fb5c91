//! Format-3 bootloader fixtures are generated in memory from public wire constants.

use ed25519_dalek::{Signer, SigningKey};
use motatool::bootloader::{
    bootloader_hw_id, bootloader_target_id, validate_bootloader_image, BootloaderError,
    CANDIDATE_MANIFEST_OFFSET, CAPS_MAGIC, CONTINUITY_MAGIC, IMAGE_SIZE, IMAGE_START,
    MANIFEST_MAGIC, STORAGE_INTERNAL_UPDATE, STORAGE_QSPI_UPDATE,
};
use motatool::container::ContainerError;
use motatool::format::{
    off, seeder, APPROVAL_NONE, APP_FORMAT_VER, BOOTLOADER_BLOCK_SIZE, BOOT_FORMAT_VER,
    HASH_ALGO_SHA256, HEADER_LEN, MAGIC, MFL, MFLAG_BOOTLOADER, MFLAG_FULL, MFLAG_SIGNED,
    SIGNED_LEN, TRAILER,
};
use motatool::merkle;
use motatool::report::inspect;
use motatool::serve::{accept_served, Action, Folder, SeederCore};
use motatool::{verify, Manifest};
use sha2::{Digest, Sha256};

const BOARD_ID: u32 = 0x239A_0071;
const DEVICE_NAME: &str = "T096_DFU";
const BOOT_VERSION: u32 = 0x0204_0401;
const CAPS_OFF: usize = 0x80;

fn wr_u16(buf: &mut [u8], off: usize, value: u16) {
    buf[off..off + 2].copy_from_slice(&value.to_le_bytes());
}

fn wr_u32(buf: &mut [u8], off: usize, value: u32) {
    buf[off..off + 4].copy_from_slice(&value.to_le_bytes());
}

fn synthetic_t096_bootloader() -> Vec<u8> {
    let mut image = vec![0xFF; IMAGE_SIZE];
    wr_u32(&mut image, 0, 0x2004_0000);
    wr_u32(&mut image, 4, IMAGE_START + 0x101); // Thumb reset vector inside the image

    image[CAPS_OFF..CAPS_OFF + 8].copy_from_slice(&CAPS_MAGIC);
    wr_u16(&mut image, CAPS_OFF + 8, 3);
    wr_u16(&mut image, CAPS_OFF + 10, 0x0005); // FULL | DETOOLS_INPLACE
    image[CAPS_OFF + 12] = STORAGE_INTERNAL_UPDATE;
    image[CAPS_OFF + 13..CAPS_OFF + 16].fill(0);

    let base: usize = CANDIDATE_MANIFEST_OFFSET;
    image[base..base + 8].copy_from_slice(&MANIFEST_MAGIC);
    wr_u16(&mut image, base + 8, 1);
    wr_u16(&mut image, base + 10, 44);
    wr_u32(&mut image, base + 12, IMAGE_START);
    wr_u32(&mut image, base + 16, IMAGE_SIZE as u32);
    wr_u32(&mut image, base + 20, BOARD_ID);
    image[base + 24..base + 40].fill(0);
    image[base + 24..base + 24 + DEVICE_NAME.len()].copy_from_slice(DEVICE_NAME.as_bytes());
    image[base + 40..base + 44].fill(0);

    let ext: usize = base + 44;
    image[ext..ext + 8].copy_from_slice(&CONTINUITY_MAGIC);
    wr_u16(&mut image, ext + 8, 2);
    wr_u16(&mut image, ext + 10, 32);
    wr_u32(&mut image, ext + 12, BOOT_VERSION);
    wr_u16(&mut image, ext + 16, 140);
    wr_u16(&mut image, ext + 18, 0x00B6);
    wr_u32(&mut image, ext + 20, 0x0002_6000);
    wr_u16(&mut image, ext + 24, 1);
    wr_u16(&mut image, ext + 26, 0);
    wr_u32(&mut image, ext + 28, 0);
    repair_embedded_crc(&mut image);
    image
}

fn repair_embedded_crc(image: &mut [u8]) {
    let crc_off: usize = CANDIDATE_MANIFEST_OFFSET + 40;
    image[crc_off..crc_off + 4].fill(0);
    let crc: u32 = ieee_crc32(image);
    wr_u32(image, crc_off, crc);
}

fn ieee_crc32(bytes: &[u8]) -> u32 {
    let mut crc: u32 = u32::MAX;
    for &byte in bytes {
        crc ^= u32::from(byte);
        for _ in 0..8 {
            crc = (crc >> 1) ^ (0xEDB8_8320 & 0u32.wrapping_sub(crc & 1));
        }
    }
    !crc
}

fn noop(_: &mut [u8]) {}

fn bootloader_container(image: &[u8], mutate_manifest: fn(&mut [u8])) -> Vec<u8> {
    let leaves = merkle::leaf_hashes(image, BOOTLOADER_BLOCK_SIZE as usize);
    assert_eq!(leaves.len(), 40);
    let mut manifest = [0u8; MFL];
    manifest[off::FORMAT_VER] = BOOT_FORMAT_VER;
    manifest[off::FLAGS] = MFLAG_FULL | MFLAG_SIGNED | MFLAG_BOOTLOADER;
    manifest[off::HASH_ALGO] = HASH_ALGO_SHA256;
    wr_u32(
        &mut manifest,
        off::TARGET_ID,
        bootloader_target_id(BOARD_ID, DEVICE_NAME).unwrap(),
    );
    wr_u32(&mut manifest, off::FW_VERSION, BOOT_VERSION);
    wr_u32(&mut manifest, off::IMAGE_SIZE, IMAGE_SIZE as u32);
    wr_u32(&mut manifest, off::PAYLOAD_SIZE, IMAGE_SIZE as u32);
    manifest[off::BLOCK_SIZE_LOG2] = BOOTLOADER_BLOCK_SIZE.ilog2() as u8;
    manifest[off::MERKLE_ROOT..off::MERKLE_ROOT + 4].copy_from_slice(&merkle::root(&leaves));
    manifest[off::IMAGE_HASH..off::IMAGE_HASH + 32].copy_from_slice(&Sha256::digest(image));
    manifest[off::CODEC_ID] = 0;
    manifest[off::HW_ID..off::HW_ID + 32]
        .copy_from_slice(&bootloader_hw_id(BOARD_ID, DEVICE_NAME).unwrap());
    manifest[off::BASE_HASH..off::BASE_HASH + 8].fill(0);
    manifest[off::APPROVAL..off::APPROVAL + 4].copy_from_slice(&APPROVAL_NONE);

    let key = SigningKey::from_bytes(&[0x33; 32]);
    manifest[off::SIGNER..off::SIGNER + 32].copy_from_slice(&key.verifying_key().to_bytes());
    mutate_manifest(&mut manifest);
    let signature = key.sign(&manifest[..SIGNED_LEN]).to_bytes();
    manifest[off::SIGNATURE..off::SIGNATURE + 64].copy_from_slice(&signature);

    let total: usize = HEADER_LEN + MFL + leaves.len() * 4 + image.len() + TRAILER.len();
    let mut blob = Vec::with_capacity(total);
    blob.extend_from_slice(&MAGIC);
    blob.extend_from_slice(&(total as u32).to_le_bytes());
    blob.extend_from_slice(&manifest);
    for leaf in leaves {
        blob.extend_from_slice(&leaf);
    }
    blob.extend_from_slice(image);
    blob.extend_from_slice(&TRAILER);
    blob
}

#[test]
fn signed_t096_v3_parses_verifies_inspects_and_serves() {
    let blob = bootloader_container(&synthetic_t096_bootloader(), noop);
    assert_eq!(blob.len(), 41_330);
    let manifest = Manifest::parse(&blob).unwrap();
    assert!(manifest.is_full() && manifest.is_signed() && manifest.is_bootloader());
    assert_eq!(manifest.target_id, 0x4235_4C85);
    assert_eq!(manifest.payload_off(), 365);
    assert!(verify(&blob).is_empty());

    let served = accept_served(vec![b"t096-bootloader.mota".to_vec()], blob.clone());
    let folder = Folder::new(vec![served.unwrap_or_else(|why| panic!("{why}"))]);
    assert_eq!(folder.count(), 1);
    let core = SeederCore::new(folder, None);
    let (status, desc) = match core.handle(seeder::OP_DESCRIBE, &[0]) {
        Some(Action::Reply(status, desc)) => (status, desc),
        _ => panic!("no reply"),
    };
    assert_eq!(status, seeder::STATUS_OK);
    assert_eq!(desc[13], 0x07);
    assert_eq!(desc[34], 10);

    let stdout = inspect(&blob, "unused").unwrap().join("\n");
    assert!(stdout.contains("BOOTLOADER=true"), "{stdout}");
    assert!(stdout.contains("bootloader_board: 0x239a0071"), "{stdout}");
    assert!(stdout.contains("bootloader_name : T096_DFU"), "{stdout}");
    assert!(stdout.contains("bootloader_store: 0x0a"), "{stdout}");
    assert!(stdout.contains("target_id      : 0x42354c85  (heltec_t096)"), "{stdout}");
    assert!(stdout.contains("bootloader_offset: 0x9fb4"), "{stdout}");
    assert!(stdout.contains("bootloader_version: 2.4.4-preview.1  (0x02040401)"), "{stdout}");
    assert!(stdout.contains("bootloader_cont : S140 fwid=0x00b6 app=0x26000 ABI1"), "{stdout}");
}

fn v2_with_bootloader_flag(m: &mut [u8]) {
    m[off::FORMAT_VER] = APP_FORMAT_VER;
}
fn v3_without_exact_flags(m: &mut [u8]) {
    m[off::FLAGS] = MFLAG_FULL | MFLAG_SIGNED;
}
fn v3_wrong_hash(m: &mut [u8]) {
    m[off::HASH_ALGO] = 0x13;
}
fn v3_wrong_codec(m: &mut [u8]) {
    m[off::CODEC_ID] = 2;
}
fn v3_wrong_block_size(m: &mut [u8]) {
    m[off::BLOCK_SIZE_LOG2] = 11;
}
fn v3_nonzero_base(m: &mut [u8]) {
    m[off::BASE_HASH] = 1;
}
fn v3_bad_version(m: &mut [u8]) {
    wr_u32(m, off::FW_VERSION, 0x0204_0400);
}
fn v3_wrong_target(m: &mut [u8]) {
    let value: u32 = u32::from_le_bytes(m[off::TARGET_ID..off::TARGET_ID + 4].try_into().unwrap());
    wr_u32(m, off::TARGET_ID, value ^ 1);
}
fn v3_wrong_hw(m: &mut [u8]) {
    m[off::HW_ID] ^= 1;
}

#[test]
fn v3_outer_profile_is_exact_and_identity_bound() {
    let image = synthetic_t096_bootloader();
    let cases: [(&str, fn(&mut [u8]), ContainerError); 9] = [
        ("v2+bootloader", v2_with_bootloader_flag, ContainerError::AppFlags(7)),
        ("non-exact flags", v3_without_exact_flags, ContainerError::BootFlags(3)),
        ("hash algorithm", v3_wrong_hash, ContainerError::HashAlgo(0x13)),
        ("codec", v3_wrong_codec, ContainerError::BootCodec),
        ("2 KiB block size", v3_wrong_block_size, ContainerError::BootBlocks),
        ("base hash", v3_nonzero_base, ContainerError::BootBase),
        (
            "version sentinel",
            v3_bad_version,
            ContainerError::Boot(BootloaderError::VersionMismatch),
        ),
        (
            "target binding",
            v3_wrong_target,
            ContainerError::Boot(BootloaderError::TargetMismatch),
        ),
        (
            "hardware binding",
            v3_wrong_hw,
            ContainerError::Boot(BootloaderError::HwIdMismatch),
        ),
    ];
    for (name, mutate, error) in cases {
        let blob = bootloader_container(&image, mutate);
        assert!(Manifest::parse(&blob).is_err(), "accepted malformed {name}");
        assert!(!verify(&blob).is_empty(), "verified malformed {name}");
        assert_eq!(Manifest::parse(&blob), Err(error), "{name}");
    }
}

#[test]
fn v3_rejects_malformed_embedded_contract_and_wire_integrity() {
    let mut bad_vector = synthetic_t096_bootloader();
    wr_u32(&mut bad_vector, 0, 0x2004_0001);
    repair_embedded_crc(&mut bad_vector);
    assert!(Manifest::parse(&bootloader_container(&bad_vector, noop)).is_err());

    let mut bad_caps = synthetic_t096_bootloader();
    bad_caps[CAPS_OFF + 12] = 0x02; // stage ceiling without BOOT_UPDATE
    repair_embedded_crc(&mut bad_caps);
    assert!(Manifest::parse(&bootloader_container(&bad_caps, noop)).is_err());

    let mut bad_continuity = synthetic_t096_bootloader();
    let ext: usize = CANDIDATE_MANIFEST_OFFSET + 44;
    wr_u16(&mut bad_continuity, ext + 18, 0x0123); // T096 is qualified for S140 v6
    repair_embedded_crc(&mut bad_continuity);
    assert!(Manifest::parse(&bootloader_container(&bad_continuity, noop)).is_err());

    let mut bad_signature = bootloader_container(&synthetic_t096_bootloader(), noop);
    bad_signature[HEADER_LEN + off::SIGNATURE] ^= 1;
    assert!(Manifest::parse(&bad_signature).is_ok());
    assert!(verify(&bad_signature)
        .iter()
        .any(|problem| problem.contains("signature INVALID")));

    let mut partial_approval = bootloader_container(&synthetic_t096_bootloader(), noop);
    partial_approval[HEADER_LEN + off::APPROVAL] = 0xFE;
    assert!(Manifest::parse(&partial_approval).is_ok());
    assert!(verify(&partial_approval)
        .iter()
        .any(|problem| problem.contains("approval is not")));
}

fn validate(image: &[u8]) -> Result<(), BootloaderError> {
    let hw = bootloader_hw_id(BOARD_ID, DEVICE_NAME).unwrap();
    validate_bootloader_image(image, 0x4235_4C85, &hw, BOOT_VERSION).map(|_| ())
}

#[test]
fn each_broken_image_has_its_error() {
    let good = synthetic_t096_bootloader();
    assert_eq!(validate(&good), Ok(()));
    let base: usize = CANDIDATE_MANIFEST_OFFSET;
    let ext: usize = base + 44;
    assert_eq!(validate(&good[..IMAGE_SIZE - 4]), Err(BootloaderError::ImageSize));
    let hw = bootloader_hw_id(BOARD_ID, DEVICE_NAME).unwrap();
    assert_eq!(
        validate_bootloader_image(&good, 0x4235_4C85, &hw, BOOT_VERSION + 1).map(|_| ()),
        Err(BootloaderError::VersionMismatch)
    );

    let edit = |change: &dyn Fn(&mut Vec<u8>)| {
        let mut image = good.clone();
        change(&mut image);
        repair_embedded_crc(&mut image);
        validate(&image)
    };
    // The reset handler without its Thumb bit.
    assert_eq!(
        edit(&|i| wr_u32(i, 4, IMAGE_START + 0x100)),
        Err(BootloaderError::VectorTable)
    );
    assert_eq!(
        edit(&|i| wr_u32(i, 4, IMAGE_START + IMAGE_SIZE as u32 + 1)),
        Err(BootloaderError::VectorTable)
    );
    assert_eq!(edit(&|i| i[ext] = 0), Err(BootloaderError::ContinuityMissing));
    assert_eq!(
        edit(&|i| wr_u16(i, ext + 8, 3)),
        Err(BootloaderError::ContinuityVersion)
    );
    assert_eq!(
        edit(&|i| wr_u32(i, ext + 28, 1)),
        Err(BootloaderError::ContinuityMetadata)
    );
    assert_eq!(
        edit(&|i| wr_u32(i, ext + 12, 0x0204_0400)),
        Err(BootloaderError::ContinuityMetadata)
    );
    assert_eq!(
        edit(&|i| i[base + 24] = b' '),
        Err(BootloaderError::ManifestInvalid)
    );
    // Bytes behind the name's first NUL.
    assert_eq!(
        edit(&|i| i[base + 24 + DEVICE_NAME.len() + 1] = b'X'),
        Err(BootloaderError::ManifestInvalid)
    );
    assert_eq!(
        edit(&|i| i[base + 24..base + 40].fill(b'A')),
        Err(BootloaderError::ManifestInvalid)
    );
    assert_eq!(
        edit(&|i| wr_u32(i, base + 16, IMAGE_SIZE as u32 - 4)),
        Err(BootloaderError::ManifestInvalid)
    );
    let mut corrupt = good.clone();
    corrupt[0x1234] ^= 0x80;
    assert_eq!(validate(&corrupt), Err(BootloaderError::ManifestInvalid));
    for (at, value) in [(8usize, 2u8), (10, 4), (12, 0x8A), (13, 1)] {
        assert_eq!(
            edit(&|i| i[CAPS_OFF + at] = value),
            Err(BootloaderError::CapabilityMarker)
        );
    }
    assert_eq!(
        edit(&|i| wr_u16(i, CAPS_OFF + 8, u16::MAX)),
        Err(BootloaderError::CapabilityMarker)
    );
    assert_eq!(
        edit(&|i| i.copy_within(CAPS_OFF..CAPS_OFF + 16, CAPS_OFF + 0x80)),
        Err(BootloaderError::CapabilityMarker)
    );
    // A bare magic is no marker.
    assert_eq!(
        edit(&|i| i[0x100..0x108].copy_from_slice(&CAPS_MAGIC)),
        Ok(())
    );
    // An unaligned marker is none.
    assert_eq!(
        edit(&|i| {
            i.copy_within(CAPS_OFF..CAPS_OFF + 16, CAPS_OFF + 1);
            i[CAPS_OFF] = 0xFF;
        }),
        Err(BootloaderError::CapabilityMarker)
    );
    assert_eq!(
        edit(&|i| i[CAPS_OFF + 12] = STORAGE_QSPI_UPDATE),
        Err(BootloaderError::StorageProfile(0x0E))
    );
    assert_eq!(
        BootloaderError::StorageProfile(0x0E).to_string(),
        "bootloader self-update storage profile 0x0E is not valid for its identity"
    );
    assert_eq!(
        edit(&|i| wr_u16(i, ext + 18, 0x0123)),
        Err(BootloaderError::PlatformProfile)
    );
}

#[test]
fn an_envelope_elsewhere_or_cut_off_is_refused() {
    let good = synthetic_t096_bootloader();
    let base: usize = CANDIDATE_MANIFEST_OFFSET;
    let mut moved = good.clone();
    moved.copy_within(base..base + 76, 0x8000);
    moved[base..base + 76].fill(0xFF);
    moved[0x8000 + 40..0x8000 + 44].fill(0);
    let crc: u32 = ieee_crc32(&moved);
    wr_u32(&mut moved, 0x8000 + 40, crc);
    assert_eq!(validate(&moved), Err(BootloaderError::EnvelopeOffset));

    let end: usize = IMAGE_SIZE - 44;
    let mut cut = good.clone();
    cut[base..].fill(0xFF);
    cut[end..].copy_from_slice(&good[base..base + 44]);
    cut[end + 40..end + 44].fill(0);
    let crc: u32 = ieee_crc32(&cut);
    wr_u32(&mut cut, end + 40, crc);
    assert_eq!(validate(&cut), Err(BootloaderError::ContinuityTruncated));
}

#[test]
fn invalid_manifest_candidate_does_not_shadow_later_valid_manifest() {
    let mut image = synthetic_t096_bootloader();
    let base: usize = CANDIDATE_MANIFEST_OFFSET;
    image.copy_within(base..base + 44, 0x200);
    wr_u32(&mut image, 0x200 + 16, IMAGE_SIZE as u32 - 4);
    wr_u32(&mut image, 0x200 + 40, 0);
    repair_embedded_crc(&mut image);

    let hw = bootloader_hw_id(BOARD_ID, DEVICE_NAME).unwrap();
    let parsed = validate_bootloader_image(&image, 0x4235_4C85, &hw, BOOT_VERSION).unwrap();
    assert_eq!(parsed.manifest_offset, base);
}

#[test]
fn no_single_byte_of_an_image_can_be_changed() {
    let good = synthetic_t096_bootloader();
    let base: usize = CANDIDATE_MANIFEST_OFFSET;
    for at in [0usize, 9, CAPS_OFF + 12, 0x1234, base, base + 40, base + 43, base + 75] {
        for bit in [1u8, 0x80] {
            let mut image = good.clone();
            image[at] ^= bit;
            assert!(validate(&image).is_err(), "byte {at}");
        }
    }
}

fn crc_with_fields(image: &mut [u8], first: usize, second: usize, a: u32, b: u32) -> (u32, u32) {
    // The CRC of the image as each of the two manifests computes it.
    wr_u32(image, first, 0);
    wr_u32(image, second, b);
    let one: u32 = ieee_crc32(image);
    wr_u32(image, first, a);
    wr_u32(image, second, 0);
    let two: u32 = ieee_crc32(image);
    (one, two)
}

#[test]
fn two_valid_manifests_are_ambiguous() {
    // CRC-32 is affine over its input bits: solve for two CRC fields that are both right.
    let mut image = synthetic_t096_bootloader();
    let other: usize = 0x200;
    let base: usize = CANDIDATE_MANIFEST_OFFSET;
    image.copy_within(base..base + 76, other);
    let first: usize = other + 40;
    let second: usize = base + 40;
    let residual = |image: &mut Vec<u8>, x: u64| {
        let (a, b): (u32, u32) = (x as u32, (x >> 32) as u32);
        let (one, two) = crc_with_fields(image, first, second, a, b);
        ((one ^ a) as u64) | (((two ^ b) as u64) << 32)
    };
    let constant: u64 = residual(&mut image, 0);
    let columns: Vec<u64> = (0..64)
        .map(|bit| residual(&mut image, 1u64 << bit) ^ constant)
        .collect();
    let mut rows: Vec<u128> = (0..64)
        .map(|r| {
            let mut row: u128 = (((constant >> r) & 1) as u128) << 64;
            for (c, column) in columns.iter().enumerate() {
                row |= (((column >> r) & 1) as u128) << c;
            }
            row
        })
        .collect();
    let mut solution: u64 = 0;
    let mut pivots: Vec<(usize, usize)> = Vec::new();
    let mut used: usize = 0;
    for c in 0..64usize {
        if let Some(p) = (used..64).find(|r| (rows[*r] >> c) & 1 == 1) {
            rows.swap(used, p);
            for r in 0..64usize {
                if r != used && (rows[r] >> c) & 1 == 1 {
                    rows[r] ^= rows[used];
                }
            }
            pivots.push((used, c));
            used += 1;
        }
    }
    for (r, c) in pivots {
        if (rows[r] >> 64) & 1 == 1 {
            solution |= 1u64 << c;
        }
    }
    assert_eq!(residual(&mut image, solution), 0);
    wr_u32(&mut image, first, solution as u32);
    wr_u32(&mut image, second, (solution >> 32) as u32);
    assert_eq!(validate(&image), Err(BootloaderError::ManifestAmbiguous));
}
