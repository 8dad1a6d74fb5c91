//! The `EndF` firmware-identity trailer and the version and target helpers.
//!
//! A firmware image describes itself through a fixed 56-byte trailer: `EndF ‖ body_len(4) ‖
//! body_hash8(8) ‖ fw_version(4) ‖ target_id(4) ‖ hw_id(32)`. A container inherits the target,
//! version and hardware of its firmware from there.
use vstd::prelude::*;
use vstd::slice::{slice_subrange, slice_to_vec};
use vstd::string::*;
use vstd::utf8::*;

use crate::bytes::{
    le16_at, le16_bytes, le32_at, le32_bytes, lemma_le32_field, low32, push_bytes, push_u16,
    push_u32, rd_u16, rd_u32, window, window_eq,
};
use crate::crypto::{hash4, hash8, sha256_of, truncated_hash};
use crate::format::{
    before_nul, cstr, cstr_text, lemma_before_nul, no_ident, FwIdent, FwIdentView, ENDF_LEN,
    ENDF_MAGIC, ENDF_OFF_FWVER, ENDF_OFF_HWID, ENDF_OFF_TARGET, HW_ID_LEN, NRF52_APP_BASE_S140_V6,
    NRF52_APP_BASE_S140_V7, NRF52_APP_END, NRF52_BOOT_SCRATCH_START, NRF52_EXTRAFS_START,
    NRF52_LAYOUT_FLAGS_KNOWN, NRF52_LAYOUT_FLAG_BOOTLOADER_SCRATCH, NRF52_LAYOUT_FLAG_HYBRID_RAM,
    NRF52_LAYOUT_FLAG_INTERNAL_EXTRAFS, NRF52_LAYOUT_FLAG_QSPI, NRF52_LAYOUT_FLAG_SD,
    NRF52_LAYOUT_LEN, NRF52_LAYOUT_MAGIC, NRF52_LAYOUT_VERSION,
};
use crate::text::{dec, hex_upper, push_dec, push_hex};
pub use crate::version::{pack_version, version_str};

verus! {

broadcast use crate::bytes::lemma_le32_len;

/// Authenticated nRF52840 flash geometry embedded immediately before an image's EndF trailer.
///
/// The record is part of the EndF-hashed body, so a valid record cannot be changed without
/// invalidating the firmware identity trailer.
#[derive(Clone, Copy, Debug, PartialEq, Eq, Structural)]
pub struct Nrf52Layout {
    pub app_base: u32,
    pub linked_app_end: u32,
    pub stage_ceiling: u32,
    pub flags: u8,
}

/// Why a layout record is refused.
#[derive(Clone, Copy, Debug, PartialEq, Eq, Structural)]
pub enum LayoutError {
    AppBase(u32),
    LinkedAppEnd(u32),
    StageCeiling(u32),
    AppRegion(u32, u32),
    Flags(u8),
    SdAndQspi,
    ExternalExtraFs,
    ScratchWithoutQspi,
    ScratchGeometry,
    CeilingMismatch(u32),
    Version(u8),
    RecordLength(u16),
}

impl LayoutError {
    /// The message of the error.
    pub open spec fn message(self) -> Seq<char> {
        match self {
            LayoutError::AppBase(v) => "unsupported nRF52 app base 0x"@ + hex_upper(v as int),
            LayoutError::LinkedAppEnd(v) => "unsupported nRF52 linked app end 0x"@ + hex_upper(
                v as int,
            ),
            LayoutError::StageCeiling(v) => "unsupported nRF52 staging ceiling 0x"@ + hex_upper(
                v as int,
            ),
            LayoutError::AppRegion(a, b) => "invalid nRF52 app region 0x"@ + hex_upper(a as int)
                + "..0x"@ + hex_upper(b as int),
            LayoutError::Flags(v) => "unsupported nRF52 layout flags 0x"@ + hex_upper(v as int),
            LayoutError::SdAndQspi => "nRF52 layout cannot use both SD and QSPI staging"@,
            LayoutError::ExternalExtraFs =>
                "nRF52 external staging cannot also reserve internal ExtraFS"@,
            LayoutError::ScratchWithoutQspi =>
                "nRF52 bootloader scratch requires the QSPI scratch layout"@,
            LayoutError::ScratchGeometry =>
                "reserved bootloader geometry requires the bootloader-scratch flag"@,
            LayoutError::CeilingMismatch(v) => "nRF52 staging ceiling 0x"@ + hex_upper(v as int)
                + " is inconsistent with layout flags"@,
            LayoutError::Version(v) => "unsupported nRF52 layout version "@ + dec(v as int),
            LayoutError::RecordLength(v) => "invalid nRF52 layout record length "@ + dec(v as int),
        }
    }

    /// Writes the error's message.
    pub fn to_string(&self) -> (s: String)
        ensures
            s@ == self.message(),
    {
        match self {
            LayoutError::AppBase(v) => {
                let mut s = String::from_str("unsupported nRF52 app base 0x");
                push_hex(&mut s, *v as u64);
                s
            },
            LayoutError::LinkedAppEnd(v) => {
                let mut s = String::from_str("unsupported nRF52 linked app end 0x");
                push_hex(&mut s, *v as u64);
                s
            },
            LayoutError::StageCeiling(v) => {
                let mut s = String::from_str("unsupported nRF52 staging ceiling 0x");
                push_hex(&mut s, *v as u64);
                s
            },
            LayoutError::AppRegion(a, b) => {
                let mut s = String::from_str("invalid nRF52 app region 0x");
                push_hex(&mut s, *a as u64);
                s.append("..0x");
                push_hex(&mut s, *b as u64);
                s
            },
            LayoutError::Flags(v) => {
                let mut s = String::from_str("unsupported nRF52 layout flags 0x");
                push_hex(&mut s, *v as u64);
                s
            },
            LayoutError::SdAndQspi => String::from_str(
                "nRF52 layout cannot use both SD and QSPI staging",
            ),
            LayoutError::ExternalExtraFs => String::from_str(
                "nRF52 external staging cannot also reserve internal ExtraFS",
            ),
            LayoutError::ScratchWithoutQspi => String::from_str(
                "nRF52 bootloader scratch requires the QSPI scratch layout",
            ),
            LayoutError::ScratchGeometry => String::from_str(
                "reserved bootloader geometry requires the bootloader-scratch flag",
            ),
            LayoutError::CeilingMismatch(v) => {
                let mut s = String::from_str("nRF52 staging ceiling 0x");
                push_hex(&mut s, *v as u64);
                s.append(" is inconsistent with layout flags");
                s
            },
            LayoutError::Version(v) => {
                let mut s = String::from_str("unsupported nRF52 layout version ");
                push_dec(&mut s, *v as u64);
                s
            },
            LayoutError::RecordLength(v) => {
                let mut s = String::from_str("invalid nRF52 layout record length ");
                push_dec(&mut s, *v as u64);
                s
            },
        }
    }
}

impl Nrf52Layout {
    /// Whether a flag bit is set.
    pub open spec fn has_flag(self, flag: u8) -> bool {
        self.flags & flag != 0
    }

    pub open spec fn stages_externally(self) -> bool {
        self.has_flag(NRF52_LAYOUT_FLAG_SD) || self.has_flag(NRF52_LAYOUT_FLAG_QSPI)
    }

    /// The staging ceiling that the flags call for.
    pub open spec fn flagged_ceiling(self) -> u32 {
        if !self.stages_externally() && self.has_flag(NRF52_LAYOUT_FLAG_INTERNAL_EXTRAFS) {
            NRF52_EXTRAFS_START
        } else {
            NRF52_APP_END
        }
    }

    /// The first rule that the layout breaks.
    pub open spec fn fault(self) -> Option<LayoutError> {
        if self.app_base != NRF52_APP_BASE_S140_V6 && self.app_base != NRF52_APP_BASE_S140_V7 {
            Some(LayoutError::AppBase(self.app_base))
        } else if self.linked_app_end != NRF52_EXTRAFS_START && self.linked_app_end
            != NRF52_BOOT_SCRATCH_START && self.linked_app_end != NRF52_APP_END {
            Some(LayoutError::LinkedAppEnd(self.linked_app_end))
        } else if self.stage_ceiling != NRF52_EXTRAFS_START && self.stage_ceiling != NRF52_APP_END {
            Some(LayoutError::StageCeiling(self.stage_ceiling))
        } else if self.flags & !NRF52_LAYOUT_FLAGS_KNOWN != 0 {
            Some(LayoutError::Flags(self.flags))
        } else if self.has_flag(NRF52_LAYOUT_FLAG_SD) && self.has_flag(NRF52_LAYOUT_FLAG_QSPI) {
            Some(LayoutError::SdAndQspi)
        } else if self.stages_externally() && self.has_flag(NRF52_LAYOUT_FLAG_INTERNAL_EXTRAFS) {
            Some(LayoutError::ExternalExtraFs)
        } else if self.has_flag(NRF52_LAYOUT_FLAG_BOOTLOADER_SCRATCH) && !(self.has_flag(
            NRF52_LAYOUT_FLAG_QSPI,
        ) && self.linked_app_end == NRF52_BOOT_SCRATCH_START) {
            Some(LayoutError::ScratchWithoutQspi)
        } else if !self.has_flag(NRF52_LAYOUT_FLAG_BOOTLOADER_SCRATCH) && self.linked_app_end
            == NRF52_BOOT_SCRATCH_START {
            Some(LayoutError::ScratchGeometry)
        } else if self.stage_ceiling != self.flagged_ceiling() {
            Some(LayoutError::CeilingMismatch(self.stage_ceiling))
        } else {
            None
        }
    }

    pub fn sd_backed(self) -> (r: bool)
        ensures
            r == self.has_flag(NRF52_LAYOUT_FLAG_SD),
    {
        self.flags & NRF52_LAYOUT_FLAG_SD != 0
    }

    pub fn qspi_backed(self) -> (r: bool)
        ensures
            r == self.has_flag(NRF52_LAYOUT_FLAG_QSPI),
    {
        self.flags & NRF52_LAYOUT_FLAG_QSPI != 0
    }

    pub fn external_backed(self) -> (r: bool)
        ensures
            r == self.stages_externally(),
    {
        self.sd_backed() || self.qspi_backed()
    }

    pub fn uses_internal_extrafs(self) -> (r: bool)
        ensures
            r == self.has_flag(NRF52_LAYOUT_FLAG_INTERNAL_EXTRAFS),
    {
        self.flags & NRF52_LAYOUT_FLAG_INTERNAL_EXTRAFS != 0
    }

    pub fn bootloader_scratch(self) -> (r: bool)
        ensures
            r == self.has_flag(NRF52_LAYOUT_FLAG_BOOTLOADER_SCRATCH),
    {
        self.flags & NRF52_LAYOUT_FLAG_BOOTLOADER_SCRATCH != 0
    }

    /// Whether the build may keep the tail of a staged update in RAM.
    pub fn hybrid_ram(self) -> (r: bool)
        ensures
            r == self.has_flag(NRF52_LAYOUT_FLAG_HYBRID_RAM),
    {
        self.flags & NRF52_LAYOUT_FLAG_HYBRID_RAM != 0
    }

    /// Where the application workspace of the running image ends.
    pub open spec fn workspace_end(self) -> u32 {
        if self.has_flag(NRF52_LAYOUT_FLAG_BOOTLOADER_SCRATCH) {
            self.linked_app_end
        } else {
            NRF52_APP_END
        }
    }

    /// Internal application workspace available to the currently running image. QSPI
    /// bootloader-update builds reserve the flash above their linked end as scratch; all other
    /// supported layouts may apply an application through the end of the application region
    /// (internal staging is bounded separately by `stage_ceiling`).
    pub fn application_ceiling(self) -> (r: u32)
        ensures
            r == self.workspace_end(),
    {
        if self.bootloader_scratch() {
            self.linked_app_end
        } else {
            NRF52_APP_END
        }
    }

    /// Checks the layout against the supported geometry.
    pub fn validate(self) -> (r: Result<(), LayoutError>)
        ensures
            match r {
                Ok(_) => self.fault() is None,
                Err(e) => self.fault() == Some(e),
            },
    {
        if self.app_base != NRF52_APP_BASE_S140_V6 && self.app_base != NRF52_APP_BASE_S140_V7 {
            return Err(LayoutError::AppBase(self.app_base));
        }
        if self.linked_app_end != NRF52_EXTRAFS_START && self.linked_app_end
            != NRF52_BOOT_SCRATCH_START && self.linked_app_end != NRF52_APP_END {
            return Err(LayoutError::LinkedAppEnd(self.linked_app_end));
        }
        if self.stage_ceiling != NRF52_EXTRAFS_START && self.stage_ceiling != NRF52_APP_END {
            return Err(LayoutError::StageCeiling(self.stage_ceiling));
        }
        if self.app_base >= self.linked_app_end || self.linked_app_end > NRF52_APP_END {
            return Err(LayoutError::AppRegion(self.app_base, self.linked_app_end));
        }
        if self.flags & !NRF52_LAYOUT_FLAGS_KNOWN != 0 {
            return Err(LayoutError::Flags(self.flags));
        }
        if self.sd_backed() && self.qspi_backed() {
            return Err(LayoutError::SdAndQspi);
        }
        if self.external_backed() && self.uses_internal_extrafs() {
            return Err(LayoutError::ExternalExtraFs);
        }
        if self.bootloader_scratch() {
            if !self.qspi_backed() || self.sd_backed() || self.linked_app_end
                != NRF52_BOOT_SCRATCH_START {
                return Err(LayoutError::ScratchWithoutQspi);
            }
        } else if self.linked_app_end == NRF52_BOOT_SCRATCH_START {
            return Err(LayoutError::ScratchGeometry);
        }
        // Every linked region of this version is a known supported layout and may reclaim the
        // unused InternalFS range; unknown geometry was rejected above.
        let expected_ceiling: u32 = if !self.external_backed() && self.uses_internal_extrafs() {
            NRF52_EXTRAFS_START
        } else {
            NRF52_APP_END
        };
        if self.stage_ceiling != expected_ceiling {
            return Err(LayoutError::CeilingMismatch(self.stage_ceiling));
        }
        Ok(())
    }
}

/// The version-1 record of a layout.
pub open spec fn layout_record(layout: Nrf52Layout) -> Seq<u8> {
    NRF52_LAYOUT_MAGIC@ + seq![NRF52_LAYOUT_VERSION, layout.flags] + le16_bytes(
        NRF52_LAYOUT_LEN as u16,
    ) + le32_bytes(layout.app_base) + le32_bytes(layout.linked_app_end) + le32_bytes(
        layout.stage_ceiling,
    )
}

/// Serializes one validated version-1 layout record.
pub fn build_nrf52_layout(layout: Nrf52Layout) -> (r: Result<[u8; 24], LayoutError>)
    ensures
        match r {
            Ok(record) => layout.fault() is None && record@ == layout_record(layout),
            Err(e) => layout.fault() == Some(e),
        },
{
    match layout.validate() {
        Err(e) => {
            return Err(e);
        },
        Ok(_) => {},
    }
    let mut bytes: Vec<u8> = Vec::new();
    push_bytes(&mut bytes, &NRF52_LAYOUT_MAGIC);
    bytes.push(NRF52_LAYOUT_VERSION);
    bytes.push(layout.flags);
    push_u16(&mut bytes, NRF52_LAYOUT_LEN as u16);
    push_u32(&mut bytes, layout.app_base);
    push_u32(&mut bytes, layout.linked_app_end);
    push_u32(&mut bytes, layout.stage_ceiling);
    assert(bytes@ =~= layout_record(layout));
    let mut out: [u8; 24] = [0u8; 24];
    let mut i: usize = 0;
    while i < NRF52_LAYOUT_LEN
        invariant
            i <= NRF52_LAYOUT_LEN,
            bytes@.len() == NRF52_LAYOUT_LEN,
            out@.len() == NRF52_LAYOUT_LEN,
            forall|k: int| 0 <= k < i ==> out@[k] == bytes@[k],
        decreases NRF52_LAYOUT_LEN - i,
    {
        out[i] = bytes[i];
        i += 1;
    }
    assert(out@ =~= bytes@);
    Ok(out)
}

/// The body of a trailed image.
pub open spec fn endf_body(image: Seq<u8>) -> Seq<u8> {
    image.take(image.len() - ENDF_LEN)
}

/// The last 56 bytes of an image.
pub open spec fn endf_trailer(image: Seq<u8>) -> Seq<u8> {
    image.skip(image.len() - ENDF_LEN)
}

/// Whether an image ends in a trailer that holds the length and the hash of the body before it.
pub open spec fn is_trailed(image: Seq<u8>) -> bool {
    &&& image.len() >= ENDF_LEN
    &&& window(endf_trailer(image), 0, 4) == ENDF_MAGIC@
    &&& le32_at(endf_trailer(image), 4) == endf_body(image).len()
    &&& window(endf_trailer(image), 8, 8) == truncated_hash(endf_body(image), 8)
}

/// Whether `image` already ends with a valid EndF trailer (magic, body length and body hash).
pub fn has_endf(image: &[u8]) -> (r: bool)
    ensures
        r == is_trailed(image@),
{
    if image.len() < ENDF_LEN {
        return false;
    }
    let split: usize = image.len() - ENDF_LEN;
    let body = slice_subrange(image, 0, split);
    let t = slice_subrange(image, split, image.len());
    assert(t@ =~= endf_trailer(image@));
    assert(body@ =~= endf_body(image@));
    if !window_eq(t, 0, &ENDF_MAGIC) || rd_u32(t, 4) as usize != body.len() {
        return false;
    }
    let h = hash8(body);
    window_eq(t, 8, &h)
}

/// What an image says of its flash layout: nothing if it carries no record.
pub open spec fn image_layout(image: Seq<u8>) -> Result<Option<Nrf52Layout>, LayoutError> {
    let start = image.len() - ENDF_LEN - NRF52_LAYOUT_LEN;
    let record = window(image, start, NRF52_LAYOUT_LEN as int);
    let layout = Nrf52Layout {
        flags: record[9],
        app_base: le32_at(record, 12),
        linked_app_end: le32_at(record, 16),
        stage_ceiling: le32_at(record, 20),
    };
    if !is_trailed(image) || start < 0 || window(record, 0, 8) != NRF52_LAYOUT_MAGIC@ {
        Ok(None)
    } else if record[8] != NRF52_LAYOUT_VERSION {
        Err(LayoutError::Version(record[8]))
    } else if le16_at(record, 10) != NRF52_LAYOUT_LEN {
        Err(LayoutError::RecordLength(le16_at(record, 10)))
    } else {
        match layout.fault() {
            Some(e) => Err(e),
            None => Ok(Some(layout)),
        }
    }
}

/// Parses the authenticated layout record immediately before EndF.
///
/// `Ok(None)` means an image with no record. If the marker is present but its version, length or
/// geometry is invalid, this fails closed instead of treating corrupted layout metadata as absent.
pub fn parse_nrf52_layout(image: &[u8]) -> (r: Result<Option<Nrf52Layout>, LayoutError>)
    ensures
        r == image_layout(image@),
{
    if !has_endf(image) || image.len() < ENDF_LEN + NRF52_LAYOUT_LEN {
        return Ok(None);
    }
    let start: usize = image.len() - ENDF_LEN - NRF52_LAYOUT_LEN;
    let record = slice_subrange(image, start, start + NRF52_LAYOUT_LEN);
    if !window_eq(record, 0, &NRF52_LAYOUT_MAGIC) {
        return Ok(None);
    }
    if record[8] != NRF52_LAYOUT_VERSION {
        return Err(LayoutError::Version(record[8]));
    }
    let length: u16 = rd_u16(record, 10);
    if length as usize != NRF52_LAYOUT_LEN {
        return Err(LayoutError::RecordLength(length));
    }
    let layout = Nrf52Layout {
        flags: record[9],
        app_base: rd_u32(record, 12),
        linked_app_end: rd_u32(record, 16),
        stage_ceiling: rd_u32(record, 20),
    };
    match layout.validate() {
        Ok(_) => Ok(Some(layout)),
        Err(e) => Err(e),
    }
}

/// The identity in the trailer of an image.
pub open spec fn image_ident(image: Seq<u8>) -> FwIdentView {
    if is_trailed(image) {
        FwIdentView {
            fw_version: le32_at(endf_trailer(image), ENDF_OFF_FWVER as int),
            target_id: le32_at(endf_trailer(image), ENDF_OFF_TARGET as int),
            hw_id: cstr_text(
                window(endf_trailer(image), ENDF_OFF_HWID as int, HW_ID_LEN as int),
            ),
        }
    } else {
        no_ident()
    }
}

/// Reads the firmware identity from an image's EndF trailer (all zero and empty if there is none).
pub fn parse_ident(image: &[u8]) -> (r: FwIdent)
    ensures
        r@ == image_ident(image@),
{
    if !has_endf(image) {
        return FwIdent::default();
    }
    let t = slice_subrange(image, image.len() - ENDF_LEN, image.len());
    assert(t@ =~= endf_trailer(image@));
    FwIdent {
        fw_version: rd_u32(t, ENDF_OFF_FWVER),
        target_id: rd_u32(t, ENDF_OFF_TARGET),
        hw_id: cstr(slice_subrange(t, ENDF_OFF_HWID, ENDF_OFF_HWID + HW_ID_LEN)),
    }
}

/// The bytes of `text`, cut or filled up with NUL to `n` bytes.
pub open spec fn fixed_field(bytes: Seq<u8>, n: nat) -> Seq<u8> {
    Seq::new(
        n,
        |i: int|
            if i < bytes.len() {
                bytes[i]
            } else {
                0u8
            },
    )
}

/// The trailer that carries `ident` behind `body`. The length field holds the low 32 bits of the
/// body's length.
#[verifier::opaque]
pub open spec fn trailer_for(body: Seq<u8>, ident: FwIdentView) -> Seq<u8> {
    ENDF_MAGIC@ + le32_bytes((body.len() % 0x1_0000_0000) as u32) + truncated_hash(body, 8)
        + le32_bytes(ident.fw_version) + le32_bytes(ident.target_id) + fixed_field(
        encode_utf8(ident.hw_id),
        HW_ID_LEN as nat,
    )
}

/// An image with its trailer: unchanged if it has one.
pub open spec fn trailed(image: Seq<u8>, ident: FwIdentView) -> Seq<u8> {
    if is_trailed(image) {
        image
    } else {
        image + trailer_for(image, ident)
    }
}

/// Appends a 56-byte EndF trailer carrying `ident` if `image` has none (a trailed image is returned
/// unchanged). Returns the image and its 8-byte body hash.
pub fn ensure_endf(image: &[u8], ident: &FwIdent) -> (r: (Vec<u8>, [u8; 8]))
    ensures
        r.0@ == trailed(image@, ident@),
        r.1@ == truncated_hash(endf_body(r.0@), 8),
{
    if has_endf(image) {
        let h = hash8(slice_subrange(image, 0, image.len() - ENDF_LEN));
        return (slice_to_vec(image), h);
    }
    let body_hash = hash8(image);
    let hw = ident.hw_id.as_str().as_bytes();
    let mut out: Vec<u8> = Vec::new();
    push_bytes(&mut out, image);
    push_bytes(&mut out, &ENDF_MAGIC);
    push_u32(&mut out, low32(image.len() as u64));
    push_bytes(&mut out, &body_hash);
    push_u32(&mut out, ident.fw_version);
    push_u32(&mut out, ident.target_id);
    let ghost before = out@;
    let mut i: usize = 0;
    while i < HW_ID_LEN
        invariant
            i <= HW_ID_LEN,
            hw@ == encode_utf8(ident.hw_id@),
            out@ == before + fixed_field(hw@, HW_ID_LEN as nat).take(i as int),
        decreases HW_ID_LEN - i,
    {
        let ghost field = fixed_field(hw@, HW_ID_LEN as nat);
        out.push(
            if i < hw.len() {
                hw[i]
            } else {
                0
            },
        );
        proof {
            assert(field.take(i + 1) =~= field.take(i as int).push(field[i as int]));
        }
        i += 1;
    }
    proof {
        let field = fixed_field(hw@, HW_ID_LEN as nat);
        assert(field.take(HW_ID_LEN as int) =~= field);
        reveal(trailer_for);
        assert(out@ =~= trailed(image@, ident@));
        assert(endf_body(out@) =~= image@);
    }
    (out, body_hash)
}

/// The target id of a build environment: the first four digest bytes of its name, little-endian.
pub open spec fn env_target_id(env: Seq<char>) -> u32 {
    le32_at(truncated_hash(encode_utf8(env), 4), 0)
}

/// `target_id = sha2-256:4(env_name)` read as a little-endian number.
pub fn target_id_for_env(env: &str) -> (r: u32)
    ensures
        r == env_target_id(env@),
{
    let h = hash4(env.as_bytes());
    rd_u32(&h, 0)
}

proof fn lemma_trailer_bytes(body: Seq<u8>, ident: FwIdentView)
    ensures
        ({
            let t = trailer_for(body, ident);
            &&& t.len() == ENDF_LEN
            &&& window(t, 0, 4) == ENDF_MAGIC@
            &&& le32_at(t, 4) == body.len() % 0x1_0000_0000
            &&& window(t, 8, 8) == truncated_hash(body, 8)
            &&& le32_at(t, 16) == ident.fw_version
            &&& le32_at(t, 20) == ident.target_id
            &&& window(t, 24, 32) == fixed_field(encode_utf8(ident.hw_id), 32)
        }),
{
    reveal(trailer_for);
    let t = trailer_for(body, ident);
    let length = le32_bytes((body.len() % 0x1_0000_0000) as u32);
    let version = le32_bytes(ident.fw_version);
    let target = le32_bytes(ident.target_id);
    assert(window(t, 0, 4) =~= ENDF_MAGIC@);
    assert(window(t, 4, 4) =~= length);
    assert(window(t, 8, 8) =~= truncated_hash(body, 8));
    assert(window(t, 16, 4) =~= version);
    assert(window(t, 20, 4) =~= target);
    assert(window(t, 24, 32) =~= fixed_field(encode_utf8(ident.hw_id), 32));
    lemma_le32_field(t, 4, (body.len() % 0x1_0000_0000) as u32);
    lemma_le32_field(t, 16, ident.fw_version);
    lemma_le32_field(t, 20, ident.target_id);
}

proof fn lemma_trailer_fields(image: Seq<u8>, ident: FwIdentView)
    requires
        !is_trailed(image),
    ensures
        ({
            let out = trailed(image, ident);
            let t = endf_trailer(out);
            &&& out.len() == image.len() + ENDF_LEN
            &&& endf_body(out) == image
            &&& t == trailer_for(image, ident)
            &&& window(t, 0, 4) == ENDF_MAGIC@
            &&& le32_at(t, 4) == image.len() % 0x1_0000_0000
            &&& window(t, 8, 8) == truncated_hash(image, 8)
            &&& le32_at(t, 16) == ident.fw_version
            &&& le32_at(t, 20) == ident.target_id
            &&& window(t, 24, 32) == fixed_field(encode_utf8(ident.hw_id), 32)
        }),
{
    lemma_trailer_bytes(image, ident);
    let out = trailed(image, ident);
    assert(endf_trailer(out) =~= trailer_for(image, ident));
    assert(endf_body(out) =~= image);
}

/// Adding a trailer is idempotent: the result carries one, so that adding another, of whatever
/// identity, changes nothing.
pub proof fn law_ensure_endf_idempotent(image: Seq<u8>, ident: FwIdentView, other: FwIdentView)
    requires
        image.len() <= u32::MAX,
    ensures
        is_trailed(trailed(image, ident)),
        trailed(trailed(image, ident), other) == trailed(image, ident),
{
    if !is_trailed(image) {
        lemma_trailer_fields(image, ident);
    }
}

proof fn lemma_field_before_nul(bytes: Seq<u8>, n: nat)
    requires
        bytes.len() <= n,
        forall|i: int| 0 <= i < bytes.len() ==> bytes[i] != 0,
    ensures
        before_nul(fixed_field(bytes, n)) == bytes,
{
    let field = fixed_field(bytes, n);
    lemma_before_nul(field, bytes.len() as int);
    assert(field.take(bytes.len() as int) =~= bytes);
}

/// The identity that a trailer was made from reads back: version and target always, and the
/// hardware id when its encoding fits the field and holds no NUL.
pub proof fn law_ident_reads_back(image: Seq<u8>, ident: FwIdentView)
    requires
        image.len() <= u32::MAX,
        !is_trailed(image),
    ensures
        image_ident(trailed(image, ident)).fw_version == ident.fw_version,
        image_ident(trailed(image, ident)).target_id == ident.target_id,
        encode_utf8(ident.hw_id).len() <= HW_ID_LEN && !encode_utf8(ident.hw_id).contains(0)
            ==> image_ident(trailed(image, ident)) == ident,
{
    lemma_trailer_fields(image, ident);
    let raw = encode_utf8(ident.hw_id);
    if raw.len() <= HW_ID_LEN && !raw.contains(0) {
        assert forall|i: int| 0 <= i < raw.len() implies raw[i] != 0 by {
            assert(raw.contains(raw[i]));
        }
        lemma_field_before_nul(raw, HW_ID_LEN as nat);
        encode_utf8_valid_utf8(ident.hw_id);
        encode_utf8_decode_utf8(ident.hw_id);
    }
}

/// A valid layout written as the last record of a body is what the trailed image reports.
pub proof fn law_layout_reads_back(code: Seq<u8>, layout: Nrf52Layout, ident: FwIdentView)
    requires
        layout.fault() is None,
        code.len() + NRF52_LAYOUT_LEN <= u32::MAX,
        !is_trailed(code + layout_record(layout)),
    ensures
        image_layout(trailed(code + layout_record(layout), ident)) == Ok::<_, LayoutError>(
            Some(layout),
        ),
{
    let body = code + layout_record(layout);
    let image = trailed(body, ident);
    let record = layout_record(layout);
    lemma_trailer_fields(body, ident);
    law_ensure_endf_idempotent(body, ident, ident);
    let start = image.len() - ENDF_LEN - NRF52_LAYOUT_LEN;
    assert(window(image, start, NRF52_LAYOUT_LEN as int) =~= record);
    assert(window(record, 0, 8) =~= NRF52_LAYOUT_MAGIC@);
    assert(window(record, 12, 4) =~= le32_bytes(layout.app_base));
    assert(window(record, 16, 4) =~= le32_bytes(layout.linked_app_end));
    assert(window(record, 20, 4) =~= le32_bytes(layout.stage_ceiling));
    lemma_le32_field(record, 12, layout.app_base);
    lemma_le32_field(record, 16, layout.linked_app_end);
    lemma_le32_field(record, 20, layout.stage_ceiling);
}

/// A trailed body that does not end in the layout marker reports no layout.
pub proof fn law_unmarked_image_has_no_layout(body: Seq<u8>, ident: FwIdentView)
    requires
        !is_trailed(body),
        body.len() >= NRF52_LAYOUT_LEN ==> window(body, body.len() - NRF52_LAYOUT_LEN, 8)
            != NRF52_LAYOUT_MAGIC@,
    ensures
        image_layout(trailed(body, ident)) == Ok::<Option<Nrf52Layout>, LayoutError>(None),
{
    let image = trailed(body, ident);
    lemma_trailer_fields(body, ident);
    let start = image.len() - ENDF_LEN - NRF52_LAYOUT_LEN;
    if start >= 0 {
        let record = window(image, start, NRF52_LAYOUT_LEN as int);
        assert(window(record, 0, 8) =~= window(body, start, 8));
    }
}

/// A valid layout names page-aligned regions inside the application flash, and its workspace is
/// never empty.
pub proof fn law_valid_layout_geometry(layout: Nrf52Layout)
    requires
        layout.fault() is None,
    ensures
        layout.app_base % 0x1000 == 0,
        layout.linked_app_end % 0x1000 == 0,
        layout.stage_ceiling % 0x1000 == 0,
        layout.app_base < layout.linked_app_end <= NRF52_APP_END,
        layout.app_base < layout.workspace_end() <= NRF52_APP_END,
        layout.linked_app_end <= layout.workspace_end(),
        layout.app_base < layout.stage_ceiling <= NRF52_APP_END,
        layout.stages_externally() ==> layout.stage_ceiling == NRF52_APP_END,
        layout.has_flag(NRF52_LAYOUT_FLAG_BOOTLOADER_SCRATCH) ==> layout.has_flag(
            NRF52_LAYOUT_FLAG_QSPI,
        ) && !layout.has_flag(NRF52_LAYOUT_FLAG_SD),
{
}

/// The rules of a layout in full: it is valid exactly where the application starts at 0x26000 or
/// 0x27000, ends at 0xD4000, 0xE0000 or 0xED000, only the five lowest flag bits are used, SD (bit 0)
/// and QSPI (bit 2) exclude each other and internal ExtraFS (bit 1), the end 0xE0000 goes with the
/// scratch bit (bit 3) and that one with QSPI, and the staging ceiling is 0xD4000 with internal
/// ExtraFS and 0xED000 otherwise.
pub proof fn law_layout_rules(layout: Nrf52Layout)
    ensures
        layout.fault() is None <==> {
            let flags = layout.flags;
            let sd = flags & 0x01 != 0;
            let extrafs = flags & 0x02 != 0;
            let qspi = flags & 0x04 != 0;
            let scratch = flags & 0x08 != 0;
            &&& layout.app_base == 0x26000 || layout.app_base == 0x27000
            &&& layout.linked_app_end == 0xD4000 || layout.linked_app_end == 0xE0000
                || layout.linked_app_end == 0xED000
            &&& flags <= 0x1F
            &&& !(sd && qspi)
            &&& !(sd && extrafs) && !(qspi && extrafs)
            &&& scratch == (layout.linked_app_end == 0xE0000)
            &&& scratch ==> qspi
            &&& extrafs ==> layout.stage_ceiling == 0xD4000
            &&& !extrafs ==> layout.stage_ceiling == 0xED000
        },
{
    let flags = layout.flags;
    assert(flags & !0x1Fu8 == 0 <==> flags <= 0x1F) by (bit_vector);
}

/// The workspace of the running image reaches to 0xED000, or with the scratch bit only to its linked
/// end; an update is staged outside the internal flash with the SD or the QSPI bit.
pub proof fn law_layout_workspace(layout: Nrf52Layout)
    ensures
        layout.workspace_end() == if layout.flags & 0x08 != 0 {
            layout.linked_app_end
        } else {
            0xED000
        },
        layout.stages_externally() <==> layout.flags & 0x01 != 0 || layout.flags & 0x04 != 0,
{
}

/// An image is trailed exactly where its last 56 bytes start with `EndF`, the length of what stands
/// before them and the first eight digest bytes of it.
pub proof fn law_trailer_form(image: Seq<u8>)
    ensures
        is_trailed(image) <==> {
            let n = image.len() - 56;
            &&& n >= 0
            &&& image[n] == 0x45 && image[n + 1] == 0x6E && image[n + 2] == 0x64 && image[n + 3]
                == 0x46
            &&& le32_at(image, n + 4) == n
            &&& forall|i: int| 0 <= i < 8 ==> #[trigger] image[n + 8 + i] == sha256_of(image.take(n))[i]
        },
{
    let n = image.len() - 56;
    if n >= 0 {
        let t = endf_trailer(image);
        let magic = window(t, 0, 4);
        let hash = window(t, 8, 8);
        let body = endf_body(image);
        assert(body =~= image.take(n));
        assert(magic[0] == image[n] && magic[1] == image[n + 1] && magic[2] == image[n + 2]
            && magic[3] == image[n + 3]);
        if magic[0] == 0x45 && magic[1] == 0x6E && magic[2] == 0x64 && magic[3] == 0x46 {
            assert(magic =~= ENDF_MAGIC@);
        }
        assert(le32_at(t, 4) == le32_at(image, n + 4)) by {
            reveal(le32_at);
        }
        let want = truncated_hash(body, 8);
        if hash == want {
            assert forall|i: int| 0 <= i < 8 implies #[trigger] image[n + 8 + i] == sha256_of(
                image.take(n),
            )[i] by {
                assert(hash[i] == image[n + 8 + i]);
                assert(want[i] == sha256_of(image.take(n))[i]);
            }
        }
        if forall|i: int| 0 <= i < 8 ==> #[trigger] image[n + 8 + i] == sha256_of(image.take(n))[i] {
            assert forall|i: int| 0 <= i < 8 implies hash[i] == want[i] by {
                assert(hash[i] == image[n + 8 + i]);
            }
            assert(hash =~= want);
        }
    }
}

/// The identity of a trailed image stands in its last 40 bytes: version, target and hardware id. An
/// image without a trailer has version and target zero and no hardware id.
pub proof fn law_identity_is_in_the_trailer(image: Seq<u8>)
    ensures
        is_trailed(image) ==> image_ident(image).fw_version == le32_at(image, image.len() - 40),
        is_trailed(image) ==> image_ident(image).target_id == le32_at(image, image.len() - 36),
        is_trailed(image) ==> image_ident(image).hw_id == cstr_text(
            image.subrange(image.len() - 32, image.len() as int),
        ),
        !is_trailed(image) ==> image_ident(image).fw_version == 0 && image_ident(image).target_id
            == 0 && image_ident(image).hw_id.len() == 0,
{
    if is_trailed(image) {
        let t = endf_trailer(image);
        assert(le32_at(t, 16) == le32_at(image, image.len() - 40) && le32_at(t, 20) == le32_at(
            image,
            image.len() - 36,
        )) by {
            reveal(le32_at);
        }
        assert(window(t, 24, 32) =~= image.subrange(image.len() - 32, image.len() as int));
    }
}

/// Adding a trailer keeps the image: a trailed one is returned as it is, another one is followed by
/// 56 bytes.
pub proof fn law_trailer_keeps_image(image: Seq<u8>, ident: FwIdentView)
    ensures
        is_trailed(image) ==> trailed(image, ident) == image,
        !is_trailed(image) ==> trailed(image, ident).len() == image.len() + 56 && trailed(
            image,
            ident,
        ).take(image.len() as int) == image,
{
    if !is_trailed(image) {
        lemma_trailer_fields(image, ident);
        assert(trailed(image, ident).take(image.len() as int) =~= image);
    }
}

/// Where a layout is looked for, and what is made of it. The record is the 24 bytes before the
/// trailer, marked `mOTALay1`. An image without a trailer or without the marker has none. One with
/// the marker has the layout that the record holds, where its version is 1, its length 24 and the
/// layout valid, and is refused otherwise.
pub proof fn law_layout_record_decides(image: Seq<u8>)
    ensures
        ({
            let n = image.len() - 80;
            let marked = is_trailed(image) && n >= 0 && image.subrange(n, n + 8) == seq![
                0x6Du8, 0x4F, 0x54, 0x41, 0x4C, 0x61, 0x79, 0x31,
            ];
            let held = Nrf52Layout {
                app_base: le32_at(image, n + 12),
                linked_app_end: le32_at(image, n + 16),
                stage_ceiling: le32_at(image, n + 20),
                flags: image[n + 9],
            };
            let sound = image[n + 8] == 1 && le16_at(image, n + 10) == 24 && held.fault() is None;
            &&& !marked ==> image_layout(image) == Ok::<Option<Nrf52Layout>, LayoutError>(None)
            &&& marked && sound ==> image_layout(image) == Ok::<_, LayoutError>(Some(held))
            &&& marked && !sound ==> image_layout(image) is Err
        }),
{
    let n = image.len() - 80;
    if is_trailed(image) && n >= 0 {
        let record = window(image, n, 24);
        let magic = seq![0x6Du8, 0x4F, 0x54, 0x41, 0x4C, 0x61, 0x79, 0x31];
        assert(NRF52_LAYOUT_MAGIC@ =~= magic);
        assert(window(record, 0, 8) =~= image.subrange(n, n + 8));
        assert(le32_at(record, 12) == le32_at(image, n + 12) && le32_at(record, 16) == le32_at(
            image,
            n + 16,
        ) && le32_at(record, 20) == le32_at(image, n + 20)) by {
            reveal(le32_at);
        }
        assert(record[8] == image[n + 8] && record[9] == image[n + 9] && record[10] == image[n + 10]
            && record[11] == image[n + 11]);
    }
}

/// The target id of a build environment is the number in the first four digest bytes of its name,
/// the first byte lowest.
pub proof fn law_env_target_id(env: Seq<char>)
    ensures
        ({
            let digest = sha256_of(encode_utf8(env));
            env_target_id(env) == digest[0] + digest[1] * 0x100 + digest[2] * 0x1_0000 + digest[3]
                * 0x100_0000
        }),
{
    reveal(le32_at);
    let digest = sha256_of(encode_utf8(env));
    let h = truncated_hash(encode_utf8(env), 4);
    assert(h[0] == digest[0] && h[1] == digest[1] && h[2] == digest[2] && h[3] == digest[3]);
}

} // verus!
