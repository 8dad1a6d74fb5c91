//! The constants and records of the `.mota` container, the `EndF` trailer and the seeder protocol.
use vstd::prelude::*;
use vstd::slice::slice_subrange;
use vstd::string::*;
use vstd::utf8::*;

pub use crate::bytes::{rd_u16, rd_u32};
pub use crate::manifest::{Codec, Manifest};
pub use crate::off;
pub use crate::seeder;

verus! {

/// `EndF`
pub const ENDF_MAGIC: [u8; 4] = [0x45, 0x6E, 0x64, 0x46];

pub const ENDF_LEN: usize = 56;

pub const ENDF_OFF_FWVER: usize = 16;

pub const ENDF_OFF_TARGET: usize = 20;

pub const ENDF_OFF_HWID: usize = 24;

pub const HW_ID_LEN: usize = 32;

/// `mOTALay1`
pub const NRF52_LAYOUT_MAGIC: [u8; 8] = [0x6D, 0x4F, 0x54, 0x41, 0x4C, 0x61, 0x79, 0x31];

pub const NRF52_LAYOUT_LEN: usize = 24;

pub const NRF52_LAYOUT_VERSION: u8 = 1;

pub const NRF52_LAYOUT_FLAG_SD: u8 = 0x01;

pub const NRF52_LAYOUT_FLAG_INTERNAL_EXTRAFS: u8 = 0x02;

pub const NRF52_LAYOUT_FLAG_QSPI: u8 = 0x04;

pub const NRF52_LAYOUT_FLAG_BOOTLOADER_SCRATCH: u8 = 0x08;

pub const NRF52_LAYOUT_FLAG_HYBRID_RAM: u8 = 0x10;

pub const NRF52_LAYOUT_FLAGS_KNOWN: u8 = 0x1F;

pub const NRF52_APP_BASE_S140_V6: u32 = 0x0002_6000;

pub const NRF52_APP_BASE_S140_V7: u32 = 0x0002_7000;

pub const NRF52_EXTRAFS_START: u32 = 0x000D_4000;

/// Where the linked application ends in a QSPI build that reserves scratch for bootloader updates.
pub const NRF52_BOOT_SCRATCH_START: u32 = 0x000E_0000;

/// Where the linked application of a QSPI bootloader-update build ends.
pub const NRF52_QSPI_LINKED_APP_END: u32 = NRF52_BOOT_SCRATCH_START;

pub const NRF52_APP_END: u32 = 0x000E_D000;

/// The in-place segment of an nRF52 delta: one flash page.
pub const NRF52_INPLACE_SEGMENT: u32 = 4096;

pub const NRF52_FLASH_PAGE: u32 = 4096;

/// The reset-retained RAM that may hold the tail of a staged container.
pub const NRF52_HYBRID_RAM_SIZE: u32 = 0x0001_0000;

/// The in-place memory where an image carries no layout record.
pub const NRF52_FALLBACK_INPLACE_MEMORY: u32 = 0x0009_8000;

/// The flash below the ExtraFS region of the smaller application layout.
pub const NRF52_FALLBACK_FLASH_SPAN: u32 = 0x000A_D000;

/// `mOTA`
pub const MAGIC: [u8; 4] = [0x6D, 0x4F, 0x54, 0x41];

/// `/mOTA`
pub const TRAILER: [u8; 5] = [0x2F, 0x6D, 0x4F, 0x54, 0x41];

pub const TRAILER_LEN: usize = 5;

/// The magic and the total length.
pub const HEADER_LEN: usize = 8;

/// The length of the manifest.
pub const MFL: usize = 197;

/// The length of the part of the manifest that a signature covers.
pub const SIGNED_LEN: usize = 129;

pub const APP_FORMAT_VER: u8 = 2;

pub const BOOT_FORMAT_VER: u8 = 3;

pub const MFLAG_FULL: u8 = 0x01;

pub const MFLAG_SIGNED: u8 = 0x02;

pub const MFLAG_BOOTLOADER: u8 = 0x04;

pub const HASH_ALGO_SHA256: u8 = 0x12;

/// The approval field of a package that no one has approved.
pub const APPROVAL_NONE: [u8; 4] = [0xFF, 0xFF, 0xFF, 0xFF];

/// `APRV`: the approval field of an approved package.
pub const APPROVAL_APPROVED: [u8; 4] = [0x41, 0x50, 0x52, 0x56];

pub const DEFAULT_BLOCK_SIZE: u32 = 2048;

pub const BOOTLOADER_BLOCK_SIZE: u32 = 1024;

/// The largest logical block of an application container.
pub const MAX_APPLICATION_BLOCK_SIZE: u32 = 2048;

/// The firmware identity that a trailer or the build flags carry.
#[derive(Clone, Debug, PartialEq, Eq)]
pub struct FwIdent {
    pub fw_version: u32,
    pub target_id: u32,
    pub hw_id: String,
}

/// A `FwIdent` with its hardware id as a sequence of characters.
#[verifier::ext_equal]
pub struct FwIdentView {
    pub fw_version: u32,
    pub target_id: u32,
    pub hw_id: Seq<char>,
}

impl View for FwIdent {
    type V = FwIdentView;

    open spec fn view(&self) -> FwIdentView {
        FwIdentView {
            fw_version: self.fw_version,
            target_id: self.target_id,
            hw_id: self.hw_id@,
        }
    }
}

/// The identity of a firmware that carries none.
pub open spec fn no_ident() -> FwIdentView {
    FwIdentView { fw_version: 0, target_id: 0, hw_id: Seq::empty() }
}

impl Default for FwIdent {
    fn default() -> (r: FwIdent)
        ensures
            r@ == no_ident(),
    {
        let hw_id = String::new();
        assert(hw_id@ =~= Seq::empty());
        FwIdent { fw_version: 0, target_id: 0, hw_id }
    }
}

/// The text that a byte string decodes to with every malformed part replaced.
pub uninterp spec fn utf8_lossy(bytes: Seq<u8>) -> Seq<char>;

/// `String::from_utf8_lossy` decodes well-formed UTF-8 exactly and replaces what is malformed. How
/// much of a malformed string one replacement character stands for is left to the name.
#[verifier::external_body]
fn decode_lossy(bytes: &[u8]) -> (s: String)
    ensures
        s@ == utf8_lossy(bytes@),
        valid_utf8(bytes@) ==> s@ == decode_utf8(bytes@),
{
    String::from_utf8_lossy(bytes).into_owned()
}

/// The bytes of a field up to its first NUL.
pub open spec fn before_nul(field: Seq<u8>) -> Seq<u8>
    decreases field.len(),
{
    if field.len() == 0 || field[0] == 0 {
        Seq::empty()
    } else {
        seq![field[0]] + before_nul(field.skip(1))
    }
}

/// The text of a NUL-padded field: what stands before the first NUL, decoded exactly where it is
/// well-formed UTF-8.
pub open spec fn cstr_text(field: Seq<u8>) -> Seq<char> {
    let raw = before_nul(field);
    if valid_utf8(raw) {
        decode_utf8(raw)
    } else {
        utf8_lossy(raw)
    }
}

/// A NUL-padded field holds the bytes before its first NUL.
pub proof fn lemma_before_nul(field: Seq<u8>, end: int)
    requires
        0 <= end <= field.len(),
        forall|k: int| 0 <= k < end ==> field[k] != 0,
        end < field.len() ==> field[end] == 0,
    ensures
        before_nul(field) == field.take(end),
    decreases end,
{
    if end == 0 {
        assert(field.take(0) =~= Seq::empty());
    } else {
        let rest = field.skip(1);
        assert forall|k: int| 0 <= k < end - 1 implies rest[k] != 0 by {
            assert(rest[k] == field[k + 1]);
        }
        lemma_before_nul(rest, end - 1);
        assert(seq![field[0]] + rest.take(end - 1) =~= field.take(end));
    }
}

/// The text of a NUL-padded field.
pub fn cstr(field: &[u8]) -> (s: String)
    ensures
        s@ == cstr_text(field@),
{
    let mut end: usize = 0;
    while end < field.len() && field[end] != 0
        invariant
            end <= field@.len(),
            forall|k: int| 0 <= k < end ==> field@[k] != 0,
        decreases field@.len() - end,
    {
        end += 1;
    }
    proof {
        lemma_before_nul(field@, end as int);
    }
    decode_lossy(slice_subrange(field, 0, end))
}

/// The text of a field is what stands before its first NUL, whatever follows; a field without one is
/// text to its end.
pub proof fn law_field_text(raw: Seq<u8>, rest: Seq<u8>)
    requires
        forall|i: int| 0 <= i < raw.len() ==> raw[i] != 0,
        valid_utf8(raw),
    ensures
        cstr_text(raw) == decode_utf8(raw),
        cstr_text(raw.push(0) + rest) == decode_utf8(raw),
{
    lemma_before_nul(raw, raw.len() as int);
    assert(raw.take(raw.len() as int) =~= raw);
    let field = raw.push(0) + rest;
    lemma_before_nul(field, raw.len() as int);
    assert(field.take(raw.len() as int) =~= raw);
}

} // verus!
