//! Validation of the privileged nRF52840 bootloader payload of a format-3 container.
//!
//! Format 3 has the same outer byte layout as an application `.mota`, but it is one exact,
//! fail-closed profile for a signed 40 KiB OTAFIX bootloader image. The checks here keep `verify`
//! and folder serving from turning an arbitrary signed blob into a bootloader offer.
use vstd::prelude::*;
use vstd::slice::slice_subrange;
use vstd::string::*;
use vstd::utf8::*;

use crate::bytes::{bytes_eq, le16_at, le32_at, rd_u16, rd_u32, window, window_eq};
use crate::crypto::{hash4, sha256_of, truncated_hash};
use crate::text::{digit_char, hex_fixed, latin1_text, lemma_hex_fixed_len, push_hex_fixed, str_eq};

pub use crate::boards::{BootloaderBoard, BootloaderCompatibility, BOOTLOADER_BOARDS};
pub use crate::bootpack::{
    bootloader_image_crc32, bootloader_version_str, build_bootloader,
    validate_bootloader_image_for_profile, validate_bootloader_inventory, BootloaderBuildOpts,
    PACKAGE_SIZE,
};
pub use crate::ihex::extract_bootloader_region_from_hex;

verus! {

pub const IMAGE_START: u32 = 0x000F_4000;

pub const IMAGE_SIZE: usize = 0x0000_A000;

/// `BLMFCRC1`
pub const MANIFEST_MAGIC: [u8; 8] = [0x42, 0x4C, 0x4D, 0x46, 0x43, 0x52, 0x43, 0x31];

pub const MANIFEST_VERSION: u16 = 1;

pub const MANIFEST_SIZE: usize = 44;

/// `BLM2SOFT`
pub const CONTINUITY_MAGIC: [u8; 8] = [0x42, 0x4C, 0x4D, 0x32, 0x53, 0x4F, 0x46, 0x54];

pub const CONTINUITY_VERSION: u16 = 2;

pub const CONTINUITY_SIZE: usize = 32;

pub const ENVELOPE_SIZE: usize = MANIFEST_SIZE + CONTINUITY_SIZE;

pub const CANDIDATE_MANIFEST_OFFSET: usize = IMAGE_SIZE - ENVELOPE_SIZE;

/// `MOTABLDR`
pub const CAPS_MAGIC: [u8; 8] = [0x4D, 0x4F, 0x54, 0x41, 0x42, 0x4C, 0x44, 0x52];

pub const STORAGE_SD: u8 = 0x01;

pub const STORAGE_STAGE_CEILING: u8 = 0x02;

pub const STORAGE_QSPI: u8 = 0x04;

pub const STORAGE_UPDATE: u8 = 0x08;

pub const STORAGE_KNOWN: u8 = 0x0F;

/// SD card staging with self-update.
pub const STORAGE_SD_UPDATE: u8 = 0x09;

/// QSPI staging below a ceiling with self-update.
pub const STORAGE_QSPI_UPDATE: u8 = 0x0E;

/// Internal staging below a ceiling with self-update.
pub const STORAGE_INTERNAL_UPDATE: u8 = 0x0A;

pub const REQUIRED_FORMAT_ABI: u16 = 3;

/// The application codecs FULL (bit 0) and DETOOLS_INPLACE (bit 2).
pub const REQUIRED_APP_CODEC_MASK: u16 = 0x05;

pub const FAMILY_S140: u16 = 140;

pub const S140_V6_FWID: u16 = 0x00B6;

pub const S140_V7_FWID: u16 = 0x0123;

pub const APP_BASE_S140_V6: u32 = 0x0002_6000;

pub const APP_BASE_S140_V7: u32 = 0x0002_7000;

pub const LAYOUT_ABI: u16 = 1;

pub const XIAO_BASE: u32 = 0x2886_0044;

pub const XIAO_SENSE: u32 = 0x2886_0045;

/// What a validated bootloader image says of itself.
#[derive(Clone, Debug, PartialEq, Eq)]
pub struct BootloaderIdentity {
    pub manifest_offset: usize,
    pub board_id: u32,
    pub device_name: String,
    pub boot_version: u32,
    pub softdevice_family: u16,
    pub softdevice_fwid: u16,
    pub app_base: u32,
    pub layout_abi: u16,
    pub storage_flags: u8,
}

/// A `BootloaderIdentity` with its name as a sequence of characters.
#[verifier::ext_equal]
pub struct IdentityView {
    pub manifest_offset: int,
    pub board_id: u32,
    pub device_name: Seq<char>,
    pub boot_version: u32,
    pub softdevice_family: u16,
    pub softdevice_fwid: u16,
    pub app_base: u32,
    pub layout_abi: u16,
    pub storage_flags: u8,
}

impl View for BootloaderIdentity {
    type V = IdentityView;

    open spec fn view(&self) -> IdentityView {
        IdentityView {
            manifest_offset: self.manifest_offset as int,
            board_id: self.board_id,
            device_name: self.device_name@,
            boot_version: self.boot_version,
            softdevice_family: self.softdevice_family,
            softdevice_fwid: self.softdevice_fwid,
            app_base: self.app_base,
            layout_abi: self.layout_abi,
            storage_flags: self.storage_flags,
        }
    }
}

/// Why a bootloader image or identity is refused.
#[derive(Clone, Copy, Debug, PartialEq, Eq, Structural)]
pub enum BootloaderError {
    InvalidIdentity,
    ImageSize,
    VectorTable,
    ManifestAmbiguous,
    ManifestInvalid,
    ContinuityTruncated,
    ContinuityMissing,
    ContinuityVersion,
    ContinuityMetadata,
    EnvelopeOffset,
    VersionMismatch,
    TargetMismatch,
    HwIdMismatch,
    CapabilityMarker,
    StorageProfile(u8),
    PlatformProfile,
}

impl BootloaderError {
    /// The message of the error.
    pub open spec fn message(self) -> Seq<char> {
        match self {
            BootloaderError::InvalidIdentity => "invalid embedded bootloader board/name identity"@,
            BootloaderError::ImageSize => "bootloader image must be exactly 40960 bytes"@,
            BootloaderError::VectorTable => "bootloader vector table is invalid"@,
            BootloaderError::ManifestAmbiguous => "bootloader embedded manifest/CRC is ambiguous"@,
            BootloaderError::ManifestInvalid => "bootloader embedded manifest/CRC is invalid"@,
            BootloaderError::ContinuityTruncated => "bootloader continuity extension is truncated"@,
            BootloaderError::ContinuityMissing =>
                "bootloader lacks the BLM2/SOFT continuity extension"@,
            BootloaderError::ContinuityVersion =>
                "bootloader continuity extension has an invalid version/size"@,
            BootloaderError::ContinuityMetadata => "bootloader continuity metadata is invalid"@,
            BootloaderError::EnvelopeOffset =>
                "bootloader continuity envelope must be at exact offset 0x9FB4"@,
            BootloaderError::VersionMismatch =>
                "outer bootloader version does not match BLM2 metadata"@,
            BootloaderError::TargetMismatch =>
                "bootloader target ID does not match embedded identity"@,
            BootloaderError::HwIdMismatch =>
                "bootloader signed hw_id does not match embedded identity"@,
            BootloaderError::CapabilityMarker =>
                "bootloader lacks one unambiguous ABI 3 self-update capability marker"@,
            BootloaderError::StorageProfile(storage) => "bootloader self-update storage profile 0x"@
                + hex_fixed(storage as int, 2) + " is not valid for its identity"@,
            BootloaderError::PlatformProfile =>
                "bootloader continuity platform does not match its qualified profile"@,
        }
    }

    /// Writes the error's message.
    pub fn to_string(&self) -> (s: String)
        ensures
            s@ == self.message(),
    {
        match self {
            BootloaderError::InvalidIdentity => String::from_str(
                "invalid embedded bootloader board/name identity",
            ),
            BootloaderError::ImageSize => String::from_str(
                "bootloader image must be exactly 40960 bytes",
            ),
            BootloaderError::VectorTable => String::from_str("bootloader vector table is invalid"),
            BootloaderError::ManifestAmbiguous => String::from_str(
                "bootloader embedded manifest/CRC is ambiguous",
            ),
            BootloaderError::ManifestInvalid => String::from_str(
                "bootloader embedded manifest/CRC is invalid",
            ),
            BootloaderError::ContinuityTruncated => String::from_str(
                "bootloader continuity extension is truncated",
            ),
            BootloaderError::ContinuityMissing => String::from_str(
                "bootloader lacks the BLM2/SOFT continuity extension",
            ),
            BootloaderError::ContinuityVersion => String::from_str(
                "bootloader continuity extension has an invalid version/size",
            ),
            BootloaderError::ContinuityMetadata => String::from_str(
                "bootloader continuity metadata is invalid",
            ),
            BootloaderError::EnvelopeOffset => String::from_str(
                "bootloader continuity envelope must be at exact offset 0x9FB4",
            ),
            BootloaderError::VersionMismatch => String::from_str(
                "outer bootloader version does not match BLM2 metadata",
            ),
            BootloaderError::TargetMismatch => String::from_str(
                "bootloader target ID does not match embedded identity",
            ),
            BootloaderError::HwIdMismatch => String::from_str(
                "bootloader signed hw_id does not match embedded identity",
            ),
            BootloaderError::CapabilityMarker => String::from_str(
                "bootloader lacks one unambiguous ABI 3 self-update capability marker",
            ),
            BootloaderError::StorageProfile(storage) => {
                let mut s = String::from_str("bootloader self-update storage profile 0x");
                push_hex_fixed(&mut s, *storage as u64, 2);
                s.append(" is not valid for its identity");
                s
            },
            BootloaderError::PlatformProfile => String::from_str(
                "bootloader continuity platform does not match its qualified profile",
            ),
        }
    }
}

/// Versions 0 and 0xFFFFFFFF are sentinels; a zero low byte marks a release placeholder.
pub open spec fn usable_version(version: u32) -> bool {
    version != 0 && version != u32::MAX && version % 0x100 != 0
}

pub open spec fn is_xiao(board_id: u32) -> bool {
    board_id == XIAO_BASE || board_id == XIAO_SENSE
}

/// Whether `name` can be the device name of the board: one to fifteen visible ASCII characters,
/// and exactly `XIAO_DFU` on the XIAO boards.
pub open spec fn usable_name(board_id: u32, name: Seq<char>) -> bool {
    &&& board_id != 0
    &&& board_id != u32::MAX
    &&& is_xiao(board_id) ==> name == "XIAO_DFU"@
    &&& 1 <= name.len() <= 15
    &&& forall|i: int| 0 <= i < name.len() ==> 0x21 <= (#[trigger] name[i]) as int <= 0x7E
}

/// The bytes of an ASCII text, filled up with NUL to `n` bytes.
pub open spec fn nul_padded(text: Seq<char>, n: nat) -> Seq<u8> {
    Seq::new(
        n,
        |i: int|
            if i < text.len() {
                text[i] as u8
            } else {
                0u8
            },
    )
}

/// Whether the 16-byte field `raw` holds the usable device name `name`.
pub open spec fn carries_name(board_id: u32, raw: Seq<u8>, name: Seq<char>) -> bool {
    usable_name(board_id, name) && raw == nul_padded(name, 16)
}

/// The canonical hardware-id text of a board and device name.
pub open spec fn hw_id_text(board_id: u32, name: Seq<char>) -> Seq<char> {
    if board_id == XIAO_BASE {
        "XIAO_BL_28860044"@
    } else if board_id == XIAO_SENSE {
        "XIAO_BL_28860045"@
    } else {
        "NRF_BL_"@ + hex_fixed(board_id as int, 8) + "_"@ + name
    }
}

/// The 32-byte hardware id of a board and device name.
pub open spec fn hw_id_of(board_id: u32, name: Seq<char>) -> Seq<u8> {
    nul_padded(hw_id_text(board_id, name), 32)
}

/// The target id of a board and device name: the XIAO boards use their board id, every other one
/// the start of its hardware id's digest.
pub open spec fn target_id_of(board_id: u32, name: Seq<char>) -> u32 {
    if is_xiao(board_id) {
        board_id
    } else {
        le32_at(truncated_hash(hw_id_of(board_id, name), 4), 0)
    }
}

/// One bit of a reflected CRC-32.
pub open spec fn crc_bit(c: u32) -> u32 {
    if c & 1 == 1 {
        (c >> 1) ^ 0xEDB8_8320
    } else {
        c >> 1
    }
}

/// `k` bits of a reflected CRC-32.
pub open spec fn crc_bits(c: u32, k: nat) -> u32
    decreases k,
{
    if k == 0 {
        c
    } else {
        crc_bit(crc_bits(c, (k - 1) as nat))
    }
}

/// The CRC register after the bytes of `data`.
pub open spec fn crc_register(data: Seq<u8>) -> u32
    decreases data.len(),
{
    if data.len() == 0 {
        u32::MAX
    } else {
        crc_bits(crc_register(data.drop_last()) ^ (data.last() as u32), 8)
    }
}

/// The CRC-32 of `data`.
pub open spec fn crc32_of(data: Seq<u8>) -> u32 {
    !crc_register(data)
}

/// `data` with the bytes from `a` up to `b` set to zero.
pub open spec fn zeroed(data: Seq<u8>, a: int, b: int) -> Seq<u8> {
    Seq::new(
        data.len(),
        |i: int|
            if a <= i < b {
                0u8
            } else {
                data[i]
            },
    )
}

/// Whether the name field of a manifest at `off` holds the device name `name`.
pub open spec fn manifest_carries(image: Seq<u8>, off: int, name: Seq<char>) -> bool {
    carries_name(le32_at(image, off + 20), window(image, off + 24, 16), name)
}

/// Whether a valid embedded manifest stands at `off`: the right magic, version, size and memory
/// range, a usable name, and the CRC of the whole image with the CRC field taken as zero.
#[verifier::opaque]
pub open spec fn is_manifest(image: Seq<u8>, off: int) -> bool {
    &&& 0 <= off
    &&& off % 4 == 0
    &&& off + MANIFEST_SIZE <= image.len()
    &&& window(image, off, 8) == MANIFEST_MAGIC@
    &&& le16_at(image, off + 8) == MANIFEST_VERSION
    &&& le16_at(image, off + 10) == MANIFEST_SIZE
    &&& le32_at(image, off + 12) == IMAGE_START
    &&& le32_at(image, off + 16) == IMAGE_SIZE
    &&& exists|name: Seq<char>| manifest_carries(image, off, name)
    &&& crc32_of(zeroed(image, off + 40, off + 44)) == le32_at(image, off + 40)
}

/// The device name in the manifest at `off`.
pub open spec fn manifest_name(image: Seq<u8>, off: int) -> Seq<char> {
    choose|name: Seq<char>| manifest_carries(image, off, name)
}

/// What the manifest at `off` and the continuity extension behind it say.
pub open spec fn envelope_identity(image: Seq<u8>, off: int) -> Result<
    IdentityView,
    BootloaderError,
> {
    let ext = off + MANIFEST_SIZE;
    if off + ENVELOPE_SIZE > image.len() {
        Err(BootloaderError::ContinuityTruncated)
    } else if window(image, ext, 8) != CONTINUITY_MAGIC@ {
        Err(BootloaderError::ContinuityMissing)
    } else if le16_at(image, ext + 8) != CONTINUITY_VERSION || le16_at(image, ext + 10)
        != CONTINUITY_SIZE {
        Err(BootloaderError::ContinuityVersion)
    } else if !usable_version(le32_at(image, ext + 12)) || le16_at(image, ext + 16) == 0 || le16_at(
        image,
        ext + 18,
    ) == 0 || le32_at(image, ext + 20) == 0 || le16_at(image, ext + 24) == 0 || le16_at(
        image,
        ext + 26,
    ) != 0 || le32_at(image, ext + 28) != 0 {
        Err(BootloaderError::ContinuityMetadata)
    } else {
        Ok(
            IdentityView {
                manifest_offset: off,
                board_id: le32_at(image, off + 20),
                device_name: manifest_name(image, off),
                boot_version: le32_at(image, ext + 12),
                softdevice_family: le16_at(image, ext + 16),
                softdevice_fwid: le16_at(image, ext + 18),
                app_base: le32_at(image, ext + 20),
                layout_abi: le16_at(image, ext + 24),
                storage_flags: 0,
            },
        )
    }
}

/// The identity embedded in an image: that of its only valid manifest.
pub open spec fn embedded_identity(image: Seq<u8>) -> Result<IdentityView, BootloaderError> {
    if exists|a: int, b: int|
        a != b && #[trigger] is_manifest(image, a) && #[trigger] is_manifest(image, b) {
        Err(BootloaderError::ManifestAmbiguous)
    } else if exists|off: int| is_manifest(image, off) {
        envelope_identity(image, choose|off: int| is_manifest(image, off))
    } else {
        Err(BootloaderError::ManifestInvalid)
    }
}

/// Whether a capability marker for self-update stands at `off`.
#[verifier::opaque]
pub open spec fn is_marker(image: Seq<u8>, off: int) -> bool {
    &&& 0 <= off
    &&& off % 4 == 0
    &&& off + 16 <= image.len()
    &&& window(image, off, 8) == CAPS_MAGIC@
    &&& REQUIRED_FORMAT_ABI <= le16_at(image, off + 8) < u16::MAX
    &&& le16_at(image, off + 10) & REQUIRED_APP_CODEC_MASK == REQUIRED_APP_CODEC_MASK
    &&& image[off + 12] & !STORAGE_KNOWN == 0
    &&& image[off + 12] & STORAGE_UPDATE != 0
    &&& window(image, off + 13, 3) == seq![0u8, 0, 0]
}

pub open spec fn is_update_storage(storage: u8) -> bool {
    storage == STORAGE_SD_UPDATE || storage == STORAGE_QSPI_UPDATE || storage
        == STORAGE_INTERNAL_UPDATE
}

/// The storage byte of the only capability marker, if there is exactly one and it names one of the
/// self-update profiles.
pub open spec fn capability(image: Seq<u8>) -> Option<u8> {
    let off = choose|off: int| is_marker(image, off);
    if (exists|o: int| is_marker(image, o)) && (forall|a: int, b: int|
        is_marker(image, a) && is_marker(image, b) ==> a == b) && is_update_storage(
        image[off + 12],
    ) {
        Some(image[off + 12])
    } else {
        None
    }
}

/// Whether the initial stack pointer and the reset handler are those of a bootloader at
/// `IMAGE_START`.
pub open spec fn has_valid_vector(image: Seq<u8>) -> bool {
    let sp = le32_at(image, 0);
    let reset = le32_at(image, 4);
    &&& sp % 8 == 0
    &&& 0x2000_0000 <= sp <= 0x2004_0000
    &&& reset % 2 == 1
    &&& IMAGE_START <= reset - 1 < IMAGE_START + IMAGE_SIZE
}

/// The boards qualified for internal self-update.
pub open spec fn is_internal_identity(board_id: u32, name: Seq<char>) -> bool {
    ||| board_id == 0x239A_0071 && (name == "TOWER_V2_OTA"@ || name == "T096_DFU"@ || name
        == "T1_DFU"@ || name == "T114_DFU"@ || name == "MESH_POCKET_OTA"@)
    ||| board_id == 0x239A_00B3 && (name == "KeepteenLT1_OTA"@ || name == "PROM_DFU"@)
    ||| board_id == 0x239A_0029 && (name == "MX25_DFU"@ || name == "3401_DFU"@ || name
        == "4631_DFU"@ || name == "RTAG_DFU"@ || name == "GAT562_DFU"@)
    ||| board_id == 0x2886_0057 && name == "T1KE_DFU"@
    ||| board_id == 0x239A_00DA && name == "TNM3_DFU"@
}

/// The boards whose application starts above the S140 v7 SoftDevice.
pub open spec fn is_s140_v7_identity(board_id: u32, name: Seq<char>) -> bool {
    ||| is_xiao(board_id) && name == "XIAO_DFU"@
    ||| board_id == 0x239A_0029 && name == "MX25_DFU"@
    ||| board_id == 0x2886_0057 && name == "T1KE_DFU"@
}

/// Whether the identity may use the storage profile. Identities outside the qualified inventory
/// acquire no SD or QSPI privileges.
pub open spec fn storage_allowed(board_id: u32, name: Seq<char>, storage: u8) -> bool {
    if is_xiao(board_id) && name == "XIAO_DFU"@ {
        storage == STORAGE_QSPI_UPDATE
    } else if board_id == 0x239A_0071 && name == "TOWER_V2_OTA"@ {
        storage == STORAGE_INTERNAL_UPDATE || storage == STORAGE_SD_UPDATE
    } else {
        storage == STORAGE_INTERNAL_UPDATE
    }
}

/// The SoftDevice family and firmware id, application base and layout ABI that a qualified
/// identity must have.
pub open spec fn platform_of(board_id: u32, name: Seq<char>) -> Option<(u16, u16, u32, u16)> {
    if !(is_xiao(board_id) && name == "XIAO_DFU"@) && !is_internal_identity(board_id, name) {
        None
    } else if is_s140_v7_identity(board_id, name) {
        Some((FAMILY_S140, S140_V7_FWID, APP_BASE_S140_V7, LAYOUT_ABI))
    } else {
        Some((FAMILY_S140, S140_V6_FWID, APP_BASE_S140_V6, LAYOUT_ABI))
    }
}

/// What validating an image against the signed outer manifest gives.
pub open spec fn image_validation(
    image: Seq<u8>,
    target_id: u32,
    hw_id: Seq<u8>,
    version: u32,
) -> Result<IdentityView, BootloaderError> {
    if image.len() != IMAGE_SIZE {
        Err(BootloaderError::ImageSize)
    } else if !has_valid_vector(image) {
        Err(BootloaderError::VectorTable)
    } else {
        match embedded_identity(image) {
            Err(e) => Err(e),
            Ok(id) => if id.manifest_offset != CANDIDATE_MANIFEST_OFFSET {
                Err(BootloaderError::EnvelopeOffset)
            } else if version != id.boot_version {
                Err(BootloaderError::VersionMismatch)
            } else if target_id != target_id_of(id.board_id, id.device_name) {
                Err(BootloaderError::TargetMismatch)
            } else if hw_id != hw_id_of(id.board_id, id.device_name) {
                Err(BootloaderError::HwIdMismatch)
            } else {
                match capability(image) {
                    None => Err(BootloaderError::CapabilityMarker),
                    Some(storage) => if !storage_allowed(id.board_id, id.device_name, storage) {
                        Err(BootloaderError::StorageProfile(storage))
                    } else if platform_of(id.board_id, id.device_name) is Some && platform_of(
                        id.board_id,
                        id.device_name,
                    ) != Some(
                        (id.softdevice_family, id.softdevice_fwid, id.app_base, id.layout_abi),
                    ) {
                        Err(BootloaderError::PlatformProfile)
                    } else {
                        Ok(IdentityView { storage_flags: storage, ..id })
                    },
                }
            },
        }
    }
}

/// A result with the identity taken by its view.
pub open spec fn identity_result(r: Result<BootloaderIdentity, BootloaderError>) -> Result<
    IdentityView,
    BootloaderError,
> {
    match r {
        Ok(id) => Ok(id@),
        Err(e) => Err(e),
    }
}

/// Whether `version` is neither a sentinel nor a release marker.
pub fn version_valid(version: u32) -> (r: bool)
    ensures
        r == usable_version(version),
{
    version != 0 && version != u32::MAX && version % 0x100 != 0
}

proof fn lemma_padding_injective(a: Seq<char>, b: Seq<char>, board_id: u32)
    requires
        usable_name(board_id, a),
        usable_name(board_id, b),
        nul_padded(a, 16) == nul_padded(b, 16),
    ensures
        a == b,
{
    let pa = nul_padded(a, 16);
    let pb = nul_padded(b, 16);
    if a.len() < b.len() {
        assert(pa[a.len() as int] == 0);
        assert(pb[a.len() as int] == b[a.len() as int] as u8);
        assert(false);
    }
    if b.len() < a.len() {
        assert(pb[b.len() as int] == 0);
        assert(pa[b.len() as int] == a[b.len() as int] as u8);
        assert(false);
    }
    assert forall|i: int| 0 <= i < a.len() implies a[i] == b[i] by {
        assert(pa[i] == a[i] as u8);
        assert(pb[i] == b[i] as u8);
    }
    assert(a =~= b);
}

fn is_xiao_board(board_id: u32) -> (r: bool)
    ensures
        r == is_xiao(board_id),
{
    board_id == XIAO_BASE || board_id == XIAO_SENSE
}

/// The device name that the 16-byte field `raw` holds, if it is usable on the board.
fn valid_device_name(board_id: u32, raw: &[u8]) -> (r: Option<String>)
    requires
        raw@.len() == 16,
    ensures
        match r {
            Some(name) => carries_name(board_id, raw@, name@),
            None => forall|name: Seq<char>| !carries_name(board_id, raw@, name),
        },
{
    if board_id == 0 || board_id == u32::MAX {
        return None;
    }
    let mut end: usize = 0;
    while end < 16 && raw[end] != 0
        invariant
            end <= 16,
            raw@.len() == 16,
            forall|k: int| 0 <= k < end ==> raw@[k] != 0,
        decreases 16 - end,
    {
        end += 1;
    }
    let mut i: usize = 0;
    let mut good = 1 <= end && end <= 15;
    while i < 16
        invariant
            i <= 16,
            end <= 16,
            raw@.len() == 16,
            end < 16 ==> raw@[end as int] == 0,
            forall|k: int| 0 <= k < end ==> raw@[k] != 0,
            good <==> 1 <= end <= 15 && forall|k: int|
                0 <= k < i ==> if k < end {
                    0x21 <= #[trigger] raw@[k] <= 0x7E
                } else {
                    raw@[k] == 0
                },
        decreases 16 - i,
    {
        if i < end {
            if raw[i] < 0x21 || raw[i] > 0x7E {
                good = false;
            }
        } else if raw[i] != 0 {
            good = false;
        }
        i += 1;
    }
    proof {
        assert forall|name: Seq<char>| carries_name(board_id, raw@, name) implies good && name.len()
            == end by {
            assert forall|k: int| 0 <= k < 16 implies raw@[k] == if k < name.len() {
                name[k] as u8
            } else {
                0
            } by {}
            assert(raw@[name.len() as int] == 0);
            if end < name.len() {
                assert(raw@[end as int] == name[end as int] as u8);
            }
            if name.len() < end {
                assert(raw@[name.len() as int] == 0);
            }
            assert forall|k: int| 0 <= k < 16 implies if k < end {
                0x21 <= #[trigger] raw@[k] <= 0x7E
            } else {
                raw@[k] == 0
            } by {
                if k < end {
                    assert(0x21 <= name[k] as int <= 0x7E);
                }
            }
        }
    }
    if !good {
        return None;
    }
    let name = latin1_text(slice_subrange(raw, 0, end));
    assert(raw@ =~= nul_padded(name@, 16)) by {
        assert forall|k: int| 0 <= k < 16 implies raw@[k] == nul_padded(name@, 16)[k] by {}
    }
    assert forall|k: int| 0 <= k < name@.len() implies 0x21 <= (#[trigger] name@[k]) as int
        <= 0x7E by {
        assert(name@[k] == raw@[k] as char);
    }
    if is_xiao_board(board_id) && !str_eq(name.as_str(), "XIAO_DFU") {
        proof {
            reveal_strlit("XIAO_DFU");
            assert forall|other: Seq<char>| !carries_name(board_id, raw@, other) by {
                if carries_name(board_id, raw@, other) {
                    assert forall|k: int| 0 <= k < end implies other[k] == name@[k] by {
                        assert(raw@[k] == other[k] as u8);
                        assert(name@[k] == raw@[k] as char);
                    }
                    assert(other =~= name@);
                }
            }
        }
        return None;
    }
    Some(name)
}

proof fn lemma_hex_digits_ascii(n: int, width: nat)
    requires
        n >= 0,
    ensures
        forall|i: int|
            0 <= i < hex_fixed(n, width).len() ==> '0' <= #[trigger] hex_fixed(n, width)[i] <= 'F',
    decreases width,
{
    if width > 0 {
        let start = hex_fixed(n / 16, (width - 1) as nat);
        lemma_hex_digits_ascii(n / 16, (width - 1) as nat);
        assert forall|i: int| 0 <= i < hex_fixed(n, width).len() implies '0' <= #[trigger] hex_fixed(
            n,
            width,
        )[i] <= 'F' by {
            if i < start.len() {
                assert(hex_fixed(n, width)[i] == start[i]);
            }
        }
    }
}

proof fn lemma_hw_id_text(board_id: u32, name: Seq<char>)
    requires
        usable_name(board_id, name),
    ensures
        is_ascii_chars(hw_id_text(board_id, name)),
        hw_id_text(board_id, name).len() <= 31,
        forall|i: int|
            0 <= i < hw_id_text(board_id, name).len() ==> '!' <= #[trigger] hw_id_text(
                board_id,
                name,
            )[i] <= '~',
{
    reveal_strlit("XIAO_BL_28860044");
    reveal_strlit("XIAO_BL_28860045");
    reveal_strlit("NRF_BL_");
    reveal_strlit("_");
    assert("XIAO_BL_28860044"@ =~= seq![
        'X', 'I', 'A', 'O', '_', 'B', 'L', '_', '2', '8', '8', '6', '0', '0', '4', '4',
    ]);
    assert("XIAO_BL_28860045"@ =~= seq![
        'X', 'I', 'A', 'O', '_', 'B', 'L', '_', '2', '8', '8', '6', '0', '0', '4', '5',
    ]);
    assert("NRF_BL_"@ =~= seq!['N', 'R', 'F', '_', 'B', 'L', '_']);
    lemma_hex_fixed_len(board_id as int, 8);
    lemma_hex_digits_ascii(board_id as int, 8);
    let text = hw_id_text(board_id, name);
    let digits = hex_fixed(board_id as int, 8);
    assert forall|i: int| 0 <= i < text.len() implies '!' <= #[trigger] text[i] <= '~' by {
        if !is_xiao(board_id) {
            if i < 7 {
                assert(text[i] == "NRF_BL_"@[i]);
            } else if i < 15 {
                assert(text[i] == digits[i - 7]);
            } else if i == 15 {
                assert(text[i] == "_"@[0]);
            } else {
                assert(text[i] == name[i - 16]);
            }
        }
    }
}

/// Whether `name` is a usable device name of the board.
fn name_is_usable(board_id: u32, name: &str) -> (r: bool)
    ensures
        r == usable_name(board_id, name@),
{
    if board_id == 0 || board_id == u32::MAX || !name.is_ascii() {
        return false;
    }
    if is_xiao_board(board_id) && !str_eq(name, "XIAO_DFU") {
        return false;
    }
    let raw = name.as_bytes();
    proof {
        is_ascii_chars_encode_utf8(name@);
    }
    if raw.len() == 0 || raw.len() > 15 {
        return false;
    }
    let mut i: usize = 0;
    while i < raw.len()
        invariant
            i <= raw@.len(),
            raw@ == Seq::new(name@.len(), |k: int| name@[k] as u8),
            is_ascii_chars(name@),
            forall|k: int| 0 <= k < i ==> 0x21 <= (#[trigger] name@[k]) as int <= 0x7E,
        decreases raw@.len() - i,
    {
        assert(raw@[i as int] == name@[i as int] as u8);
        if raw[i] < 0x21 || raw[i] > 0x7E {
            return false;
        }
        i += 1;
    }
    true
}

/// Writes the canonical hardware-id text of a board and device name.
pub(crate) fn hw_text(board_id: u32, device_name: &str) -> (t: String)
    ensures
        t@ == hw_id_text(board_id, device_name@),
{
    if board_id == XIAO_BASE {
        String::from_str("XIAO_BL_28860044")
    } else if board_id == XIAO_SENSE {
        String::from_str("XIAO_BL_28860045")
    } else {
        let mut t = String::from_str("NRF_BL_");
        push_hex_fixed(&mut t, board_id as u64, 8);
        t.append("_");
        t.append(device_name);
        t
    }
}

/// The canonical 32-byte hardware id of a board and device name.
pub fn bootloader_hw_id(board_id: u32, device_name: &str) -> (r: Result<[u8; 32], BootloaderError>)
    ensures
        match r {
            Ok(hw) => usable_name(board_id, device_name@) && hw@ == hw_id_of(
                board_id,
                device_name@,
            ),
            Err(e) => !usable_name(board_id, device_name@) && e == BootloaderError::InvalidIdentity,
        },
{
    if !name_is_usable(board_id, device_name) {
        return Err(BootloaderError::InvalidIdentity);
    }
    let text = hw_text(board_id, device_name);
    proof {
        lemma_hw_id_text(board_id, device_name@);
        is_ascii_chars_encode_utf8(text@);
    }
    let raw = text.as_str().as_bytes();
    let mut out: [u8; 32] = [0u8; 32];
    let mut i: usize = 0;
    while i < raw.len()
        invariant
            i <= raw@.len() <= 32,
            raw@ == Seq::new(text@.len(), |k: int| text@[k] as u8),
            forall|k: int| 0 <= k < 32 ==> out@[k] == if k < i { text@[k] as u8 } else { 0 },
        decreases raw@.len() - i,
    {
        out[i] = raw[i];
        i += 1;
    }
    assert(out@ =~= hw_id_of(board_id, device_name@));
    Ok(out)
}

/// The target id under which bootloader updates for a board and device name are offered.
pub fn bootloader_target_id(board_id: u32, device_name: &str) -> (r: Result<u32, BootloaderError>)
    ensures
        match r {
            Ok(id) => (is_xiao(board_id) || usable_name(board_id, device_name@)) && id
                == target_id_of(board_id, device_name@),
            Err(e) => !is_xiao(board_id) && !usable_name(board_id, device_name@) && e
                == BootloaderError::InvalidIdentity,
        },
{
    if is_xiao_board(board_id) {
        return Ok(board_id);
    }
    match bootloader_hw_id(board_id, device_name) {
        Err(e) => Err(e),
        Ok(hw) => {
            let h = hash4(&hw);
            Ok(rd_u32(&h, 0))
        },
    }
}

proof fn lemma_crc_bit(c: u32)
    ensures
        crc_bit(c) == if c % 2 == 1 { (c / 2) ^ 0xEDB8_8320 } else { c / 2 },
{
    assert(c & 1 == c % 2) by (bit_vector);
    assert(c >> 1 == c / 2) by (bit_vector);
}

fn crc_step(register: u32, byte: u8) -> (r: u32)
    ensures
        r == crc_bits(register ^ (byte as u32), 8),
{
    let mut crc: u32 = register ^ (byte as u32);
    let ghost first = crc;
    let mut k: usize = 0;
    while k < 8
        invariant
            k <= 8,
            crc == crc_bits(first, k as nat),
        decreases 8 - k,
    {
        proof {
            lemma_crc_bit(crc);
        }
        crc = if crc % 2 == 1 {
            (crc / 2) ^ 0xEDB8_8320
        } else {
            crc / 2
        };
        k += 1;
    }
    crc
}

/// The CRC-32 of `data` with the bytes from `from` up to `to` taken as zero.
pub(crate) fn crc32_with_zeroed(data: &[u8], from: usize, to: usize) -> (r: u32)
    ensures
        r == crc32_of(zeroed(data@, from as int, to as int)),
{
    let ghost blanked = zeroed(data@, from as int, to as int);
    let mut crc: u32 = u32::MAX;
    let mut i: usize = 0;
    assert(blanked.take(0).len() == 0);
    while i < data.len()
        invariant
            i <= data@.len(),
            blanked == zeroed(data@, from as int, to as int),
            crc == crc_register(blanked.take(i as int)),
        decreases data@.len() - i,
    {
        let byte: u8 = if from <= i && i < to {
            0
        } else {
            data[i]
        };
        proof {
            let next = blanked.take(i + 1);
            assert(next.drop_last() =~= blanked.take(i as int));
            assert(next.last() == byte);
        }
        crc = crc_step(crc, byte);
        i += 1;
    }
    assert(blanked.take(i as int) =~= blanked);
    !crc
}

/// The device name of the manifest at `off`, if a valid one stands there.
fn manifest_at(image: &[u8], off: usize) -> (r: Option<String>)
    requires
        off % 4 == 0,
        off + MANIFEST_SIZE <= image@.len(),
    ensures
        match r {
            Some(name) => is_manifest(image@, off as int) && name@ == manifest_name(
                image@,
                off as int,
            ),
            None => !is_manifest(image@, off as int),
        },
{
    let _len: usize = image.len();
    proof {
        reveal(is_manifest);
    }
    if !window_eq(image, off, &MANIFEST_MAGIC) {
        return None;
    }
    let board_id: u32 = rd_u32(image, off + 20);
    let name = match valid_device_name(board_id, slice_subrange(image, off + 24, off + 40)) {
        Some(name) => name,
        None => {
            assert(forall|n: Seq<char>| !manifest_carries(image@, off as int, n));
            return None;
        },
    };
    if rd_u16(image, off + 8) != MANIFEST_VERSION || rd_u16(image, off + 10) as usize
        != MANIFEST_SIZE || rd_u32(image, off + 12) != IMAGE_START || rd_u32(image, off + 16)
        as usize != IMAGE_SIZE || crc32_with_zeroed(image, off + 40, off + 44) != rd_u32(
        image,
        off + 40,
    ) {
        return None;
    }
    proof {
        assert(manifest_carries(image@, off as int, name@));
        lemma_padding_injective(name@, manifest_name(image@, off as int), board_id);
    }
    Some(name)
}

proof fn lemma_manifest_places(image: Seq<u8>)
    ensures
        forall|k: int| #[trigger]
            is_manifest(image, k) ==> 0 <= k && k % 4 == 0 && k + MANIFEST_SIZE <= image.len(),
{
    reveal(is_manifest);
}

/// The identity embedded in an image by its only manifest and continuity extension.
pub(crate) fn parse_identity(image: &[u8]) -> (r: Result<BootloaderIdentity, BootloaderError>)
    requires
        image@.len() >= MANIFEST_SIZE,
    ensures
        identity_result(r) == embedded_identity(image@),
{
    let len: usize = image.len();
    let mut found: Option<(usize, String)> = None;
    let mut off: usize = 0;
    proof {
        lemma_manifest_places(image@);
    }
    while off <= len - MANIFEST_SIZE
        invariant
            len == image@.len(),
            len >= MANIFEST_SIZE,
            off % 4 == 0,
            off <= len - MANIFEST_SIZE + 4,
            forall|k: int| #[trigger]
                is_manifest(image@, k) ==> 0 <= k && k % 4 == 0 && k + MANIFEST_SIZE <= image@.len(),
            match found {
                Some((o, name)) => o < off && is_manifest(image@, o as int) && name@
                    == manifest_name(image@, o as int) && forall|k: int| #[trigger]
                    is_manifest(image@, k) && k < off ==> k == o,
                None => forall|k: int| #[trigger] is_manifest(image@, k) ==> k >= off,
            },
        decreases len - off + 4,
    {
        match manifest_at(image, off) {
            Some(name) => {
                if let Some((o, _)) = &found {
                    assert(is_manifest(image@, *o as int) && is_manifest(image@, off as int));
                    return Err(BootloaderError::ManifestAmbiguous);
                }
                found = Some((off, name));
            },
            None => {},
        }
        off += 4;
    }
    let (off, device_name) = match found {
        None => {
            return Err(BootloaderError::ManifestInvalid);
        },
        Some(pair) => pair,
    };
    assert(is_manifest(image@, off as int));
    assert(forall|k: int| is_manifest(image@, k) ==> k == off);
    if len - off < ENVELOPE_SIZE {
        return Err(BootloaderError::ContinuityTruncated);
    }
    let ext: usize = off + MANIFEST_SIZE;
    if !window_eq(image, ext, &CONTINUITY_MAGIC) {
        return Err(BootloaderError::ContinuityMissing);
    }
    if rd_u16(image, ext + 8) != CONTINUITY_VERSION || rd_u16(image, ext + 10) as usize
        != CONTINUITY_SIZE {
        return Err(BootloaderError::ContinuityVersion);
    }
    let boot_version: u32 = rd_u32(image, ext + 12);
    let softdevice_family: u16 = rd_u16(image, ext + 16);
    let softdevice_fwid: u16 = rd_u16(image, ext + 18);
    let app_base: u32 = rd_u32(image, ext + 20);
    let layout_abi: u16 = rd_u16(image, ext + 24);
    if !version_valid(boot_version) || softdevice_family == 0 || softdevice_fwid == 0 || app_base
        == 0 || layout_abi == 0 || rd_u16(image, ext + 26) != 0 || rd_u32(image, ext + 28) != 0 {
        return Err(BootloaderError::ContinuityMetadata);
    }
    let board_id: u32 = rd_u32(image, off + 20);
    Ok(
        BootloaderIdentity {
            manifest_offset: off,
            board_id,
            device_name,
            boot_version,
            softdevice_family,
            softdevice_fwid,
            app_base,
            layout_abi,
            storage_flags: 0,
        },
    )
}

fn validate_vector(image: &[u8]) -> (r: bool)
    requires
        image@.len() >= 8,
    ensures
        r == has_valid_vector(image@),
{
    let sp: u32 = rd_u32(image, 0);
    let reset: u32 = rd_u32(image, 4);
    sp % 8 == 0 && 0x2000_0000 <= sp && sp <= 0x2004_0000 && reset % 2 == 1 && IMAGE_START <= reset
        - 1 && reset - 1 < IMAGE_START + IMAGE_SIZE as u32
}

fn marker_at(image: &[u8], off: usize) -> (r: bool)
    requires
        off % 4 == 0,
        off + 16 <= image@.len(),
    ensures
        r == is_marker(image@, off as int),
{
    let _len: usize = image.len();
    proof {
        reveal(is_marker);
        let reserved = window(image@, off + 13, 3);
        assert(reserved == seq![0u8, 0, 0] <==> image@[off + 13] == 0 && image@[off + 14] == 0
            && image@[off + 15] == 0) by {
            assert(reserved[0] == image@[off + 13]);
            assert(reserved[1] == image@[off + 14]);
            assert(reserved[2] == image@[off + 15]);
            if image@[off + 13] == 0 && image@[off + 14] == 0 && image@[off + 15] == 0 {
                assert(reserved =~= seq![0u8, 0, 0]);
            }
        }
    }
    if !window_eq(image, off, &CAPS_MAGIC) {
        return false;
    }
    let abi: u16 = rd_u16(image, off + 8);
    let codecs: u16 = rd_u16(image, off + 10);
    let storage: u8 = image[off + 12];
    REQUIRED_FORMAT_ABI <= abi && abi != u16::MAX && codecs & REQUIRED_APP_CODEC_MASK
        == REQUIRED_APP_CODEC_MASK && storage & !STORAGE_KNOWN == 0 && storage & STORAGE_UPDATE != 0
        && image[off + 13] == 0 && image[off + 14] == 0 && image[off + 15] == 0
}

/// The storage profile of the only capability marker of an image.
fn capability_storage(image: &[u8]) -> (r: Option<u8>)
    requires
        image@.len() >= 16,
    ensures
        r == capability(image@),
{
    let len: usize = image.len();
    let mut found: Option<usize> = None;
    let mut off: usize = 0;
    assert forall|k: int| #[trigger] is_marker(image@, k) implies 0 <= k && k % 4 == 0 && k + 16
        <= image@.len() by {
        reveal(is_marker);
    }
    while off <= len - 16
        invariant
            len == image@.len(),
            len >= 16,
            off % 4 == 0,
            off <= len - 16 + 4,
            forall|k: int| #[trigger]
                is_marker(image@, k) ==> 0 <= k && k % 4 == 0 && k + 16 <= image@.len(),
            match found {
                Some(o) => o < off && is_marker(image@, o as int) && forall|k: int| #[trigger]
                    is_marker(image@, k) && k < off ==> k == o,
                None => forall|k: int| #[trigger] is_marker(image@, k) ==> k >= off,
            },
        decreases len - off + 4,
    {
        if marker_at(image, off) {
            if found.is_some() {
                assert(is_marker(image@, found->0 as int) && is_marker(image@, off as int));
                return None;
            }
            found = Some(off);
        }
        off += 4;
    }
    match found {
        None => None,
        Some(o) => {
            assert(is_marker(image@, o as int));
            assert(forall|k: int| is_marker(image@, k) ==> k == o);
            let storage: u8 = image[o + 12];
            if storage == STORAGE_SD_UPDATE || storage == STORAGE_QSPI_UPDATE || storage
                == STORAGE_INTERNAL_UPDATE {
                Some(storage)
            } else {
                None
            }
        },
    }
}

fn qualified_storage(board_id: u32, name: &str, storage: u8) -> (r: bool)
    ensures
        r == storage_allowed(board_id, name@, storage),
{
    if is_xiao_board(board_id) && str_eq(name, "XIAO_DFU") {
        storage == STORAGE_QSPI_UPDATE
    } else if board_id == 0x239A_0071 && str_eq(name, "TOWER_V2_OTA") {
        storage == STORAGE_INTERNAL_UPDATE || storage == STORAGE_SD_UPDATE
    } else {
        storage == STORAGE_INTERNAL_UPDATE
    }
}

fn internal_identity(board_id: u32, name: &str) -> (r: bool)
    ensures
        r == is_internal_identity(board_id, name@),
{
    if board_id == 0x239A_0071 {
        str_eq(name, "TOWER_V2_OTA") || str_eq(name, "T096_DFU") || str_eq(name, "T1_DFU")
            || str_eq(name, "T114_DFU") || str_eq(name, "MESH_POCKET_OTA")
    } else if board_id == 0x239A_00B3 {
        str_eq(name, "KeepteenLT1_OTA") || str_eq(name, "PROM_DFU")
    } else if board_id == 0x239A_0029 {
        str_eq(name, "MX25_DFU") || str_eq(name, "3401_DFU") || str_eq(name, "4631_DFU") || str_eq(
            name,
            "RTAG_DFU",
        ) || str_eq(name, "GAT562_DFU")
    } else if board_id == 0x2886_0057 {
        str_eq(name, "T1KE_DFU")
    } else if board_id == 0x239A_00DA {
        str_eq(name, "TNM3_DFU")
    } else {
        false
    }
}

fn qualified_platform(board_id: u32, name: &str) -> (r: Option<(u16, u16, u32, u16)>)
    ensures
        r == platform_of(board_id, name@),
{
    let xiao = is_xiao_board(board_id) && str_eq(name, "XIAO_DFU");
    if !xiao && !internal_identity(board_id, name) {
        return None;
    }
    if xiao || board_id == 0x239A_0029 && str_eq(name, "MX25_DFU") || board_id == 0x2886_0057
        && str_eq(name, "T1KE_DFU") {
        Some((FAMILY_S140, S140_V7_FWID, APP_BASE_S140_V7, LAYOUT_ABI))
    } else {
        Some((FAMILY_S140, S140_V6_FWID, APP_BASE_S140_V6, LAYOUT_ABI))
    }
}

proof fn lemma_embedded_name_usable(image: Seq<u8>)
    ensures
        embedded_identity(image) matches Ok(id) ==> usable_name(id.board_id, id.device_name),
{
    reveal(is_manifest);
    if embedded_identity(image) is Ok {
        let off = choose|off: int| is_manifest(image, off);
        assert(manifest_carries(image, off, manifest_name(image, off)));
    }
}

/// Validates the complete payload contract and binds the embedded identity to the signed outer
/// manifest.
pub fn validate_bootloader_image(
    image: &[u8],
    target_id: u32,
    signed_hw_id: &[u8; 32],
    outer_version: u32,
) -> (r: Result<BootloaderIdentity, BootloaderError>)
    ensures
        identity_result(r) == image_validation(image@, target_id, signed_hw_id@, outer_version),
{
    if image.len() != IMAGE_SIZE {
        return Err(BootloaderError::ImageSize);
    }
    if !validate_vector(image) {
        return Err(BootloaderError::VectorTable);
    }
    let mut embedded = match parse_identity(image) {
        Err(e) => {
            return Err(e);
        },
        Ok(id) => id,
    };
    proof {
        lemma_embedded_name_usable(image@);
    }
    if embedded.manifest_offset != CANDIDATE_MANIFEST_OFFSET {
        return Err(BootloaderError::EnvelopeOffset);
    }
    if outer_version != embedded.boot_version {
        return Err(BootloaderError::VersionMismatch);
    }
    match bootloader_target_id(embedded.board_id, embedded.device_name.as_str()) {
        Err(e) => {
            return Err(e);
        },
        Ok(id) => {
            if target_id != id {
                return Err(BootloaderError::TargetMismatch);
            }
        },
    }
    match bootloader_hw_id(embedded.board_id, embedded.device_name.as_str()) {
        Err(e) => {
            return Err(e);
        },
        Ok(hw) => {
            if !bytes_eq(signed_hw_id, &hw) {
                return Err(BootloaderError::HwIdMismatch);
            }
        },
    }
    let storage: u8 = match capability_storage(image) {
        None => {
            return Err(BootloaderError::CapabilityMarker);
        },
        Some(storage) => storage,
    };
    if !qualified_storage(embedded.board_id, embedded.device_name.as_str(), storage) {
        return Err(BootloaderError::StorageProfile(storage));
    }
    match qualified_platform(embedded.board_id, embedded.device_name.as_str()) {
        None => {},
        Some((family, fwid, app_base, layout_abi)) => {
            if embedded.softdevice_family != family || embedded.softdevice_fwid != fwid
                || embedded.app_base != app_base || embedded.layout_abi != layout_abi {
                return Err(BootloaderError::PlatformProfile);
            }
        },
    }
    embedded.storage_flags = storage;
    Ok(embedded)
}

/// An image is accepted for one outer identity only: the target id, hardware id and version that
/// it embeds.
pub proof fn law_image_binds_outer_identity(
    image: Seq<u8>,
    target_a: u32,
    hw_a: Seq<u8>,
    version_a: u32,
    target_b: u32,
    hw_b: Seq<u8>,
    version_b: u32,
)
    requires
        image_validation(image, target_a, hw_a, version_a) is Ok,
        image_validation(image, target_b, hw_b, version_b) is Ok,
    ensures
        target_a == target_b,
        hw_a == hw_b,
        version_a == version_b,
        image_validation(image, target_a, hw_a, version_a) == image_validation(
            image,
            target_b,
            hw_b,
            version_b,
        ),
{
}

/// Every accepted image has exactly one valid manifest, with its envelope at the one fixed offset,
/// exactly one capability marker, a usable name and version, and a storage profile that its identity
/// may use.
pub proof fn law_accepted_image_profile(
    image: Seq<u8>,
    target_id: u32,
    hw_id: Seq<u8>,
    version: u32,
)
    requires
        image_validation(image, target_id, hw_id, version) is Ok,
    ensures
        ({
            let id = image_validation(image, target_id, hw_id, version)->Ok_0;
            &&& image.len() == IMAGE_SIZE
            &&& id.manifest_offset == CANDIDATE_MANIFEST_OFFSET
            &&& forall|off: int|
                #[trigger] is_manifest(image, off) <==> off == CANDIDATE_MANIFEST_OFFSET
            &&& exists|off: int| is_marker(image, off)
            &&& forall|a: int, b: int| #[trigger]
                is_marker(image, a) && #[trigger] is_marker(image, b) ==> a == b
            &&& id.boot_version == version
            &&& usable_version(version)
            &&& usable_name(id.board_id, id.device_name)
            &&& is_update_storage(id.storage_flags)
            &&& storage_allowed(id.board_id, id.device_name, id.storage_flags)
            &&& hw_id == hw_id_of(id.board_id, id.device_name)
            &&& target_id == target_id_of(id.board_id, id.device_name)
        }),
{
    lemma_embedded_name_usable(image);
}

proof fn lemma_hex_fixed_injective(a: int, b: int, width: nat)
    requires
        a >= 0,
        b >= 0,
        hex_fixed(a, width) == hex_fixed(b, width),
        width == 8 ==> a < 0x1_0000_0000 && b < 0x1_0000_0000,
        width == 7 ==> a < 0x1000_0000 && b < 0x1000_0000,
        width == 6 ==> a < 0x100_0000 && b < 0x100_0000,
        width == 5 ==> a < 0x10_0000 && b < 0x10_0000,
        width == 4 ==> a < 0x1_0000 && b < 0x1_0000,
        width == 3 ==> a < 0x1000 && b < 0x1000,
        width == 2 ==> a < 0x100 && b < 0x100,
        width == 1 ==> a < 0x10 && b < 0x10,
        width == 0 ==> a < 1 && b < 1,
        width <= 8,
    ensures
        a == b,
    decreases width,
{
    if width > 0 {
        let sa = hex_fixed(a / 16, (width - 1) as nat);
        let sb = hex_fixed(b / 16, (width - 1) as nat);
        let da = digit_char(a % 16);
        let db = digit_char(b % 16);
        assert(sa.push(da).last() == da && sb.push(db).last() == db);
        assert(sa.push(da).drop_last() =~= sa && sb.push(db).drop_last() =~= sb);
        lemma_hex_fixed_injective(a / 16, b / 16, (width - 1) as nat);
    }
}

/// Two usable identities with the same hardware id are the same identity.
pub proof fn law_hw_id_is_canonical(
    board_a: u32,
    name_a: Seq<char>,
    board_b: u32,
    name_b: Seq<char>,
)
    requires
        usable_name(board_a, name_a),
        usable_name(board_b, name_b),
        hw_id_of(board_a, name_a) == hw_id_of(board_b, name_b),
    ensures
        board_a == board_b,
        name_a == name_b,
{
    let ta = hw_id_text(board_a, name_a);
    let tb = hw_id_text(board_b, name_b);
    let ha = hw_id_of(board_a, name_a);
    let hb = hw_id_of(board_b, name_b);
    lemma_hw_id_text(board_a, name_a);
    lemma_hw_id_text(board_b, name_b);
    if ta.len() < tb.len() {
        assert(ha[ta.len() as int] == 0);
        assert(hb[ta.len() as int] == tb[ta.len() as int] as u8);
    }
    if tb.len() < ta.len() {
        assert(hb[tb.len() as int] == 0);
        assert(ha[tb.len() as int] == ta[tb.len() as int] as u8);
    }
    assert forall|i: int| 0 <= i < ta.len() implies ta[i] == tb[i] by {
        assert(ha[i] == ta[i] as u8);
        assert(hb[i] == tb[i] as u8);
    }
    assert(ta =~= tb);
    reveal_strlit("XIAO_BL_28860044");
    reveal_strlit("XIAO_BL_28860045");
    reveal_strlit("NRF_BL_");
    reveal_strlit("_");
    lemma_hex_fixed_len(board_a as int, 8);
    lemma_hex_fixed_len(board_b as int, 8);
    assert("XIAO_BL_28860044"@[15] != "XIAO_BL_28860045"@[15]);
    assert("XIAO_BL_28860044"@[0] == 'X' && "XIAO_BL_28860045"@[0] == 'X');
    if !is_xiao(board_a) {
        assert(ta[0] == "NRF_BL_"@[0]);
    }
    if !is_xiao(board_b) {
        assert(tb[0] == "NRF_BL_"@[0]);
    }
    assert(is_xiao(board_a) == is_xiao(board_b));
    if !is_xiao(board_a) {
        let da = hex_fixed(board_a as int, 8);
        let db = hex_fixed(board_b as int, 8);
        assert(ta.subrange(7, 15) =~= da);
        assert(tb.subrange(7, 15) =~= db);
        lemma_hex_fixed_injective(board_a as int, board_b as int, 8);
        assert(ta.skip(16) =~= name_a);
        assert(tb.skip(16) =~= name_b);
    }
}

proof fn lemma_crc_bits_injective(a: u32, b: u32, k: nat)
    requires
        crc_bits(a, k) == crc_bits(b, k),
    ensures
        a == b,
    decreases k,
{
    if k > 0 {
        let x = crc_bits(a, (k - 1) as nat);
        let y = crc_bits(b, (k - 1) as nat);
        assert((if x & 1 == 1 {
            (x >> 1) ^ 0xEDB8_8320u32
        } else {
            x >> 1
        }) == (if y & 1 == 1 {
            (y >> 1) ^ 0xEDB8_8320u32
        } else {
            y >> 1
        }) ==> x == y) by (bit_vector);
        lemma_crc_bits_injective(a, b, (k - 1) as nat);
    }
}

proof fn lemma_crc_sees_one_byte(a: Seq<u8>, b: Seq<u8>, i: int)
    requires
        a.len() == b.len(),
        0 <= i < a.len(),
        a[i] != b[i],
        forall|k: int| 0 <= k < a.len() && k != i ==> a[k] == b[k],
    ensures
        crc_register(a) != crc_register(b),
    decreases a.len(),
{
    let (x, y) = (a.last(), b.last());
    let r = crc_register(a.drop_last());
    let s = crc_register(b.drop_last());
    if i == a.len() - 1 {
        assert(a.drop_last() =~= b.drop_last());
        assert(r ^ (x as u32) == r ^ (y as u32) ==> x == y) by (bit_vector);
    } else {
        lemma_crc_sees_one_byte(a.drop_last(), b.drop_last(), i);
        assert(r ^ (x as u32) == s ^ (x as u32) ==> r == s) by (bit_vector);
    }
    if crc_register(a) == crc_register(b) {
        lemma_crc_bits_injective(r ^ (x as u32), s ^ (y as u32), 8);
    }
}

/// A corrupted image is refused: no single byte of an accepted image can be changed without the
/// image being refused, whatever outer identity it is then offered under.
pub proof fn law_corrupted_image_refused(
    image: Seq<u8>,
    target_a: u32,
    hw_a: Seq<u8>,
    version_a: u32,
    i: int,
    byte: u8,
    target_b: u32,
    hw_b: Seq<u8>,
    version_b: u32,
)
    requires
        image_validation(image, target_a, hw_a, version_a) is Ok,
        0 <= i < image.len(),
        byte != image[i],
    ensures
        image_validation(image.update(i, byte), target_b, hw_b, version_b) is Err,
{
    let changed = image.update(i, byte);
    if image_validation(changed, target_b, hw_b, version_b) is Ok {
        let off = CANDIDATE_MANIFEST_OFFSET as int;
        law_accepted_image_profile(image, target_a, hw_a, version_a);
        law_accepted_image_profile(changed, target_b, hw_b, version_b);
        assert(is_manifest(image, off) && is_manifest(changed, off));
        reveal(is_manifest);
        reveal(le32_at);
        let a = zeroed(image, off + 40, off + 44);
        let b = zeroed(changed, off + 40, off + 44);
        let (x, y) = (crc_register(a), crc_register(b));
        assert(!x == !y ==> x == y) by (bit_vector);
        if off + 40 <= i < off + 44 {
            assert(a =~= b);
            assert(le32_at(image, off + 40) != le32_at(changed, off + 40));
        } else {
            assert(le32_at(image, off + 40) == le32_at(changed, off + 40));
            lemma_crc_sees_one_byte(a, b, i);
        }
    }
}

/// The vector table of a 40 KiB image is refused exactly where the initial stack pointer is no
/// multiple of eight from 0x20000000 to 0x20040000, or the reset vector is no odd address of a
/// handler in the image's own region, 0xF4000 up to 0xFE000.
pub proof fn law_vector_table(image: Seq<u8>, target_id: u32, hw_id: Seq<u8>, version: u32)
    requires
        image.len() == 40960,
    ensures
        ({
            let sp = le32_at(image, 0);
            let reset = le32_at(image, 4);
            let sound = sp % 8 == 0 && 0x2000_0000 <= sp <= 0x2004_0000 && reset % 2 == 1
                && 0xF4000 <= reset - 1 < 0xFE000;
            image_validation(image, target_id, hw_id, version) == Err::<
                IdentityView,
                BootloaderError,
            >(BootloaderError::VectorTable) <==> !sound
        }),
{
    lemma_identity_errors(image);
}

proof fn lemma_identity_errors(image: Seq<u8>)
    ensures
        embedded_identity(image) matches Err(e) ==> e != BootloaderError::VectorTable && e
            != BootloaderError::ImageSize,
{
}

/// An image is refused for its size exactly where it has not 40960 bytes.
pub proof fn law_image_size(image: Seq<u8>, target_id: u32, hw_id: Seq<u8>, version: u32)
    ensures
        image_validation(image, target_id, hw_id, version) == Err::<IdentityView, BootloaderError>(
            BootloaderError::ImageSize,
        ) <==> image.len() != 40960,
{
    lemma_identity_errors(image);
}

/// The form of an embedded manifest: 44 bytes at a multiple of four that start with `BLMFCRC1`,
/// version 1, length 44 and the region 0xF4000 of 0xA000 bytes. Then a board id that is neither zero
/// nor all ones, a name of one to fifteen visible ASCII bytes filled up with zeros to sixteen, which
/// on the XIAO boards is `XIAO_DFU`, and the CRC of the whole image with its own four bytes as zero.
pub proof fn law_manifest_form(image: Seq<u8>, off: int)
    ensures
        is_manifest(image, off) <==> {
            let board = le32_at(image, off + 20);
            let name = image.subrange(off + 24, off + 40);
            &&& 0 <= off && off % 4 == 0 && off + 44 <= image.len()
            &&& image.subrange(off, off + 8) == seq![
                0x42u8, 0x4C, 0x4D, 0x46, 0x43, 0x52, 0x43, 0x31,
            ]
            &&& le16_at(image, off + 8) == 1
            &&& le16_at(image, off + 10) == 44
            &&& le32_at(image, off + 12) == 0xF4000
            &&& le32_at(image, off + 16) == 0xA000
            &&& board != 0 && board != 0xFFFF_FFFF
            &&& exists|n: int| 1 <= n <= 15 && #[trigger] is_name_field(name, n)
            &&& board == 0x2886_0044 || board == 0x2886_0045 ==> name == seq![
                0x58u8, 0x49, 0x41, 0x4F, 0x5F, 0x44, 0x46, 0x55, 0, 0, 0, 0, 0, 0, 0, 0,
            ]
            &&& crc32_of(zeroed(image, off + 40, off + 44)) == le32_at(image, off + 40)
        },
{
    reveal(is_manifest);
    assert(MANIFEST_MAGIC@ =~= seq![0x42u8, 0x4C, 0x4D, 0x46, 0x43, 0x52, 0x43, 0x31]);
    if 0 <= off && off + 44 <= image.len() {
        let board = le32_at(image, off + 20);
        let raw = image.subrange(off + 24, off + 40);
        lemma_name_field(board, raw);
        assert(window(image, off + 24, 16) == raw);
        if exists|name: Seq<char>| manifest_carries(image, off, name) {
            let name = choose|name: Seq<char>| manifest_carries(image, off, name);
            assert(carries_name(board, raw, name));
        }
        if exists|name: Seq<char>| carries_name(board, raw, name) {
            let name = choose|name: Seq<char>| carries_name(board, raw, name);
            assert(manifest_carries(image, off, name));
        }
    }
}

/// Whether a 16-byte field holds `n` visible ASCII bytes and zeros behind them.
pub open spec fn is_name_field(field: Seq<u8>, n: int) -> bool {
    forall|i: int|
        0 <= i < 16 ==> if i < n {
            0x21 <= #[trigger] field[i] <= 0x7E
        } else {
            field[i] == 0
        }
}

proof fn lemma_name_field(board: u32, raw: Seq<u8>)
    requires
        raw.len() == 16,
    ensures
        (exists|name: Seq<char>| carries_name(board, raw, name)) <==> {
            &&& board != 0 && board != 0xFFFF_FFFF
            &&& exists|n: int| 1 <= n <= 15 && #[trigger] is_name_field(raw, n)
            &&& board == 0x2886_0044 || board == 0x2886_0045 ==> raw == seq![
                0x58u8, 0x49, 0x41, 0x4F, 0x5F, 0x44, 0x46, 0x55, 0, 0, 0, 0, 0, 0, 0, 0,
            ]
        },
{
    let xiao = seq![0x58u8, 0x49, 0x41, 0x4F, 0x5F, 0x44, 0x46, 0x55, 0, 0, 0, 0, 0, 0, 0, 0];
    reveal_strlit("XIAO_DFU");
    assert("XIAO_DFU"@ =~= seq!['X', 'I', 'A', 'O', '_', 'D', 'F', 'U']);
    assert(nul_padded("XIAO_DFU"@, 16) =~= xiao);
    if exists|name: Seq<char>| carries_name(board, raw, name) {
        let name = choose|name: Seq<char>| carries_name(board, raw, name);
        assert forall|i: int| 0 <= i < 16 implies if i < name.len() {
            0x21 <= #[trigger] raw[i] <= 0x7E
        } else {
            raw[i] == 0
        } by {
            assert(raw[i] == nul_padded(name, 16)[i]);
            if i < name.len() {
                assert(0x21 <= name[i] as int <= 0x7E);
            }
        }
        assert(is_name_field(raw, name.len() as int));
    }
    if exists|n: int| 1 <= n <= 15 && #[trigger] is_name_field(raw, n) {
        let n = choose|n: int| 1 <= n <= 15 && #[trigger] is_name_field(raw, n);
        let name = Seq::new(n as nat, |i: int| raw[i] as char);
        assert forall|i: int| 0 <= i < name.len() implies 0x21 <= (#[trigger] name[i]) as int
            <= 0x7E by {
            assert(0x21 <= raw[i] <= 0x7E);
        }
        assert(raw =~= nul_padded(name, 16)) by {
            assert forall|i: int| 0 <= i < 16 implies raw[i] == nul_padded(name, 16)[i] by {
                if i < n {
                    assert(0x21 <= raw[i] <= 0x7E);
                }
            }
        }
        if raw == xiao {
            assert(n == 8) by {
                if n < 8 {
                    assert(raw[n] == 0);
                }
                if n > 8 {
                    assert(0x21 <= raw[8] <= 0x7E);
                }
            }
            assert(name =~= "XIAO_DFU"@);
        }
        if board != 0 && board != 0xFFFF_FFFF && (is_xiao(board) ==> raw == xiao) {
            assert(carries_name(board, raw, name));
        }
    }
}

/// The form of a capability marker: 16 bytes at a multiple of four that start with `MOTABLDR`, an ABI
/// of at least 3 that is not all ones, codec bits 0 and 2, a storage byte of the four lowest bits
/// with the update bit (bit 3), and three zeros.
pub proof fn law_marker_form(image: Seq<u8>, off: int)
    ensures
        is_marker(image, off) <==> {
            &&& 0 <= off && off % 4 == 0 && off + 16 <= image.len()
            &&& image.subrange(off, off + 8) == seq![
                0x4Du8, 0x4F, 0x54, 0x41, 0x42, 0x4C, 0x44, 0x52,
            ]
            &&& 3 <= le16_at(image, off + 8) < 0xFFFF
            &&& le16_at(image, off + 10) & 0x05 == 0x05
            &&& 8 <= image[off + 12] <= 15
            &&& image[off + 13] == 0 && image[off + 14] == 0 && image[off + 15] == 0
        },
{
    reveal(is_marker);
    assert(CAPS_MAGIC@ =~= seq![0x4Du8, 0x4F, 0x54, 0x41, 0x42, 0x4C, 0x44, 0x52]);
    if 0 <= off && off + 16 <= image.len() {
        let storage = image[off + 12];
        assert(storage & !0x0Fu8 == 0 && storage & 0x08u8 != 0 <==> 8 <= storage <= 15)
            by (bit_vector);
        let reserved = window(image, off + 13, 3);
        assert(reserved[0] == image[off + 13] && reserved[1] == image[off + 14] && reserved[2]
            == image[off + 15]);
        if image[off + 13] == 0 && image[off + 14] == 0 && image[off + 15] == 0 {
            assert(reserved =~= seq![0u8, 0, 0]);
        }
    }
}

/// Which storage profiles an identity may use: the XIAO boards QSPI (0x0E) and nothing else, every
/// other identity internal staging (0x0A), and Heltec's MeshTower V2 also the SD card (0x09).
pub proof fn law_storage_privileges(board_id: u32, name: Seq<char>, storage: u8)
    requires
        usable_name(board_id, name),
    ensures
        storage_allowed(board_id, name, storage) <==> {
            let xiao = board_id == 0x2886_0044 || board_id == 0x2886_0045;
            ||| storage == 0x0E && xiao
            ||| storage == 0x0A && !xiao
            ||| storage == 0x09 && board_id == 0x239A_0071 && name == "TOWER_V2_OTA"@
        },
{
}

/// The platform of a qualified identity: S140 v7 (firmware id 0x0123, application at 0x27000) on the
/// XIAO boards, the MX25 and the T1000-E, S140 v6 (firmware id 0x00B6, application at 0x26000) on the
/// others, always with layout ABI 1. An identity outside the inventory is bound to none.
pub proof fn law_qualified_platforms(board_id: u32, name: Seq<char>)
    requires
        usable_name(board_id, name),
    ensures
        ({
            let seven = board_id == 0x2886_0044 || board_id == 0x2886_0045 || board_id
                == 0x239A_0029 && name == "MX25_DFU"@ || board_id == 0x2886_0057 && name
                == "T1KE_DFU"@;
            let six = board_id == 0x239A_0071 && (name == "TOWER_V2_OTA"@ || name == "T096_DFU"@
                || name == "T1_DFU"@ || name == "T114_DFU"@ || name == "MESH_POCKET_OTA"@)
                || board_id == 0x239A_00B3 && (name == "KeepteenLT1_OTA"@ || name == "PROM_DFU"@)
                || board_id == 0x239A_0029 && (name == "3401_DFU"@ || name == "4631_DFU"@ || name
                == "RTAG_DFU"@ || name == "GAT562_DFU"@) || board_id == 0x239A_00DA && name
                == "TNM3_DFU"@;
            platform_of(board_id, name) == if seven {
                Some((140u16, 0x0123u16, 0x27000u32, 1u16))
            } else if six {
                Some((140u16, 0x00B6u16, 0x26000u32, 1u16))
            } else {
                None
            }
        }),
{
    reveal_strlit("MX25_DFU");
    reveal_strlit("3401_DFU");
    reveal_strlit("4631_DFU");
    reveal_strlit("RTAG_DFU");
    reveal_strlit("GAT562_DFU");
    assert("MX25_DFU"@[0] != "3401_DFU"@[0] && "MX25_DFU"@[0] != "4631_DFU"@[0] && "MX25_DFU"@[0]
        != "RTAG_DFU"@[0] && "MX25_DFU"@[0] != "GAT562_DFU"@[0]);
}

/// Which images are accepted, in full. The vector table is sound. There is one manifest, at 0x9FB4,
/// and no other. Behind it at 0x9FE0 stands `BLM2SOFT` with version 2, length 32, a version that is
/// no sentinel or release marker, and platform fields that are not zero before six bytes that are.
/// That version is the outer one, and the board id and name of the manifest make the outer target and
/// hardware id. There is one capability marker, with a storage profile that the identity may use, and
/// a qualified identity has its platform.
pub proof fn law_image_accepted(image: Seq<u8>, target_id: u32, hw_id: Seq<u8>, version: u32)
    ensures
        image_validation(image, target_id, hw_id, version) is Ok <==> {
            let sp = le32_at(image, 0);
            let reset = le32_at(image, 4);
            let board = le32_at(image, 0x9FC8);
            let name = manifest_name(image, 0x9FB4);
            let platform = (
                le16_at(image, 0x9FF0),
                le16_at(image, 0x9FF2),
                le32_at(image, 0x9FF4),
                le16_at(image, 0x9FF8),
            );
            &&& image.len() == 40960
            &&& sp % 8 == 0 && 0x2000_0000 <= sp <= 0x2004_0000
            &&& reset % 2 == 1 && 0xF4000 <= reset - 1 < 0xFE000
            &&& forall|off: int| #[trigger] is_manifest(image, off) <==> off == 0x9FB4
            &&& image.subrange(0x9FE0, 0x9FE8) == seq![
                0x42u8, 0x4C, 0x4D, 0x32, 0x53, 0x4F, 0x46, 0x54,
            ]
            &&& le16_at(image, 0x9FE8) == 2 && le16_at(image, 0x9FEA) == 32
            &&& le32_at(image, 0x9FEC) == version
            &&& version != 0xFFFF_FFFF && version % 0x100 != 0
            &&& platform.0 != 0 && platform.1 != 0 && platform.2 != 0 && platform.3 != 0
            &&& le16_at(image, 0x9FFA) == 0 && le32_at(image, 0x9FFC) == 0
            &&& target_id == target_id_of(board, name)
            &&& hw_id == hw_id_of(board, name)
            &&& exists|off: int| #[trigger]
                is_marker(image, off) && (image[off + 12] == 0x09 || image[off + 12] == 0x0A
                    || image[off + 12] == 0x0E) && storage_allowed(board, name, image[off + 12])
                    && forall|o: int| #[trigger] is_marker(image, o) ==> o == off
            &&& platform_of(board, name) is Some ==> platform_of(board, name) == Some(platform)
        },
{
    assert(CONTINUITY_MAGIC@ =~= seq![0x42u8, 0x4C, 0x4D, 0x32, 0x53, 0x4F, 0x46, 0x54]);
    let off = choose|off: int| is_manifest(image, off);
    assert(window(image, 0x9FE0, 8) == image.subrange(0x9FE0, 0x9FE8));
    if image_validation(image, target_id, hw_id, version) is Ok {
        law_accepted_image_profile(image, target_id, hw_id, version);
        assert(is_manifest(image, 0x9FB4));
        assert(off == 0x9FB4);
        let o = choose|o: int| is_marker(image, o);
        assert(is_marker(image, o));
    }
    if forall|off: int| #[trigger] is_manifest(image, off) <==> off == 0x9FB4 {
        assert(is_manifest(image, 0x9FB4));
        assert(off == 0x9FB4);
    }
    if exists|off: int| #[trigger]
        is_marker(image, off) && (image[off + 12] == 0x09 || image[off + 12] == 0x0A || image[off
            + 12] == 0x0E) && storage_allowed(
            le32_at(image, 0x9FC8),
            manifest_name(image, 0x9FB4),
            image[off + 12],
        ) && forall|o: int| #[trigger] is_marker(image, o) ==> o == off {
        let o = choose|o: int| is_marker(image, o);
        assert(is_marker(image, o));
    }
}

/// What an accepted image is said to be: the fields of its manifest and of the extension behind it,
/// its name byte for byte, and the storage byte of its capability marker.
pub proof fn law_identity_is_embedded(
    image: Seq<u8>,
    target_id: u32,
    hw_id: Seq<u8>,
    version: u32,
    off: int,
)
    requires
        image_validation(image, target_id, hw_id, version) is Ok,
        is_marker(image, off),
    ensures
        ({
            let id = image_validation(image, target_id, hw_id, version)->Ok_0;
            &&& id.manifest_offset == 0x9FB4
            &&& id.board_id == le32_at(image, 0x9FC8)
            &&& 1 <= id.device_name.len() <= 15
            &&& forall|i: int|
                0 <= i < 16 ==> #[trigger] image.subrange(0x9FCC, 0x9FDC)[i] == if i
                    < id.device_name.len() {
                    id.device_name[i] as u8
                } else {
                    0
                }
            &&& id.boot_version == le32_at(image, 0x9FEC)
            &&& id.softdevice_family == le16_at(image, 0x9FF0)
            &&& id.softdevice_fwid == le16_at(image, 0x9FF2)
            &&& id.app_base == le32_at(image, 0x9FF4)
            &&& id.layout_abi == le16_at(image, 0x9FF8)
            &&& id.storage_flags == image[off + 12]
        }),
{
    law_accepted_image_profile(image, target_id, hw_id, version);
    let id = image_validation(image, target_id, hw_id, version)->Ok_0;
    assert(is_manifest(image, 0x9FB4));
    let m = choose|m: int| is_manifest(image, m);
    assert(m == 0x9FB4);
    reveal(is_manifest);
    assert(manifest_carries(image, 0x9FB4, id.device_name));
    let raw = window(image, 0x9FCC, 16);
    assert(raw == image.subrange(0x9FCC, 0x9FDC));
    assert forall|i: int| 0 <= i < 16 implies #[trigger] image.subrange(0x9FCC, 0x9FDC)[i] == if i
        < id.device_name.len() {
        id.device_name[i] as u8
    } else {
        0
    } by {
        assert(raw[i] == nul_padded(id.device_name, 16)[i]);
    }
    let o = choose|o: int| is_marker(image, o);
    assert(is_marker(image, o));
}

/// The outer identity of a board and name. The XIAO boards have `XIAO_BL_` and their board id, which
/// is also their target id. Every other board has `NRF_BL_`, its board id in eight hexadecimal digits,
/// an underscore and its name; its target id is the start of the digest of those 32 bytes.
pub proof fn law_outer_identity(board_id: u32, name: Seq<char>)
    requires
        usable_name(board_id, name),
    ensures
        ({
            let hw = hw_id_of(board_id, name);
            let digest = sha256_of(hw);
            &&& hw.len() == 32
            &&& board_id == 0x2886_0044 ==> hw == nul_padded("XIAO_BL_28860044"@, 32) && target_id_of(
                board_id,
                name,
            ) == 0x2886_0044
            &&& board_id == 0x2886_0045 ==> hw == nul_padded("XIAO_BL_28860045"@, 32) && target_id_of(
                board_id,
                name,
            ) == 0x2886_0045
            &&& board_id != 0x2886_0044 && board_id != 0x2886_0045 ==> {
                &&& hw == nul_padded("NRF_BL_"@ + hex_fixed(board_id as int, 8) + "_"@ + name, 32)
                &&& target_id_of(board_id, name) == digest[0] + digest[1] * 0x100 + digest[2]
                    * 0x1_0000 + digest[3] * 0x100_0000
            }
        }),
{
    reveal(le32_at);
    let h = truncated_hash(hw_id_of(board_id, name), 4);
    let digest = sha256_of(hw_id_of(board_id, name));
    assert(h[0] == digest[0] && h[1] == digest[1] && h[2] == digest[2] && h[3] == digest[3]);
}

/// Which names and versions are usable: a board id that is neither zero nor all ones with one to
/// fifteen characters from `!` to `~`, only `XIAO_DFU` on the XIAO boards; and a version other than
/// zero and all ones whose lowest byte is not zero.
pub proof fn law_usable_names_and_versions(board_id: u32, name: Seq<char>, version: u32)
    ensures
        usable_name(board_id, name) <==> {
            &&& board_id != 0 && board_id != 0xFFFF_FFFF
            &&& 1 <= name.len() <= 15
            &&& forall|i: int| 0 <= i < name.len() ==> '!' <= #[trigger] name[i] <= '~'
            &&& board_id == 0x2886_0044 || board_id == 0x2886_0045 ==> name == "XIAO_DFU"@
        },
        usable_version(version) <==> version != 0xFFFF_FFFF && version % 0x100 != 0,
{
    reveal_strlit("XIAO_DFU");
}

/// An image that is accepted under one outer identity is refused under every other, and told why: a
/// version, then a target id, then a hardware id that is not the one it embeds.
pub proof fn law_foreign_identity_refused(
    image: Seq<u8>,
    target: u32,
    hw: Seq<u8>,
    version: u32,
    other_target: u32,
    other_hw: Seq<u8>,
    other_version: u32,
)
    requires
        image_validation(image, target, hw, version) is Ok,
    ensures
        image_validation(image, other_target, other_hw, other_version) == if other_version
            != version {
            Err(BootloaderError::VersionMismatch)
        } else if other_target != target {
            Err(BootloaderError::TargetMismatch)
        } else if other_hw != hw {
            Err(BootloaderError::HwIdMismatch)
        } else {
            image_validation(image, target, hw, version)
        },
{
}

/// The CRC of an image is taken over every byte but those of its field, which count as zero.
pub proof fn law_crc_field_counts_as_zero(image: Seq<u8>, from: int, to: int, i: int)
    requires
        0 <= i < image.len(),
    ensures
        zeroed(image, from, to).len() == image.len(),
        zeroed(image, from, to)[i] == if from <= i && i < to {
            0
        } else {
            image[i]
        },
{
}

/// An image with a sound vector table is refused for its manifests: as ambiguous where two stand in
/// it, as invalid where none does, and in any case where one stands elsewhere than at 0x9FB4.
pub proof fn law_manifest_must_be_the_only_one(
    image: Seq<u8>,
    target_id: u32,
    hw_id: Seq<u8>,
    version: u32,
    a: int,
    b: int,
)
    requires
        image.len() == 40960,
        le32_at(image, 0) % 8 == 0,
        0x2000_0000 <= le32_at(image, 0) <= 0x2004_0000,
        le32_at(image, 4) % 2 == 1,
        0xF4000 <= le32_at(image, 4) - 1 < 0xFE000,
    ensures
        ({
            let r = image_validation(image, target_id, hw_id, version);
            &&& a != b && is_manifest(image, a) && is_manifest(image, b) ==> r == Err::<
                IdentityView,
                BootloaderError,
            >(BootloaderError::ManifestAmbiguous)
            &&& (forall|off: int| !#[trigger] is_manifest(image, off)) ==> r == Err::<
                IdentityView,
                BootloaderError,
            >(BootloaderError::ManifestInvalid)
            &&& is_manifest(image, a) && a != 0x9FB4 ==> r is Err
        }),
{
    if is_manifest(image, a) && a != 0x9FB4 && image_validation(image, target_id, hw_id, version) is Ok {
        law_accepted_image_profile(image, target_id, hw_id, version);
    }
}

} // verus!
