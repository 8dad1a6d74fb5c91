//! The manifest of a container.
use vstd::arithmetic::power2::pow2;
use vstd::bits::{lemma_u32_pow2_no_overflow, lemma_u32_shl_is_mul};
use vstd::prelude::*;

use crate::bytes::bytes_eq;
use crate::format::{
    cstr, cstr_text, APPROVAL_APPROVED, HEADER_LEN, MFL, MFLAG_BOOTLOADER, MFLAG_FULL, MFLAG_SIGNED,
};

verus! {

/// How the payload of a container makes the image.
#[derive(Clone, Copy, Debug, PartialEq, Eq, Structural)]
pub enum Codec {
    Full,
    DetoolsSequential,
    DetoolsInplace,
}

/// The codec of an id.
pub open spec fn codec_of_id(id: u8) -> Option<Codec> {
    if id == 0 {
        Some(Codec::Full)
    } else if id == 1 {
        Some(Codec::DetoolsSequential)
    } else if id == 2 {
        Some(Codec::DetoolsInplace)
    } else {
        None
    }
}

impl Codec {
    pub open spec fn spec_id(self) -> u8 {
        match self {
            Codec::Full => 0,
            Codec::DetoolsSequential => 1,
            Codec::DetoolsInplace => 2,
        }
    }

    /// The id of the codec in a manifest.
    pub fn id(self) -> (r: u8)
        ensures
            r == self.spec_id(),
            codec_of_id(r) == Some(self),
    {
        match self {
            Codec::Full => 0,
            Codec::DetoolsSequential => 1,
            Codec::DetoolsInplace => 2,
        }
    }

    /// The codec with an id, if there is one.
    pub fn from_id(id: u8) -> (r: Option<Codec>)
        ensures
            r == codec_of_id(id),
    {
        match id {
            0 => Some(Codec::Full),
            1 => Some(Codec::DetoolsSequential),
            2 => Some(Codec::DetoolsInplace),
            _ => None,
        }
    }

    pub open spec fn spec_label(self) -> Seq<char> {
        match self {
            Codec::Full => "full"@,
            Codec::DetoolsSequential => "detools-sequential"@,
            Codec::DetoolsInplace => "detools-inplace"@,
        }
    }

    /// The name of the codec for people.
    pub fn label(self) -> (r: &'static str)
        ensures
            r@ == self.spec_label(),
    {
        match self {
            Codec::Full => "full",
            Codec::DetoolsSequential => "detools-sequential",
            Codec::DetoolsInplace => "detools-inplace",
        }
    }

    pub open spec fn spec_name_tag(self) -> Seq<char> {
        match self {
            Codec::Full => "full"@,
            Codec::DetoolsSequential => "seqdelta"@,
            Codec::DetoolsInplace => "ipdelta"@,
        }
    }

    /// The name of the codec in a file name.
    pub fn name_tag(self) -> (r: &'static str)
        ensures
            r@ == self.spec_name_tag(),
    {
        match self {
            Codec::Full => "full",
            Codec::DetoolsSequential => "seqdelta",
            Codec::DetoolsInplace => "ipdelta",
        }
    }
}

/// The fields of a container's manifest, and the number of blocks that they imply.
#[derive(Clone, Copy, Debug, PartialEq, Eq)]
pub struct Manifest {
    pub format_ver: u8,
    pub flags: u8,
    pub hash_algo: u8,
    pub target_id: u32,
    pub fw_version: u32,
    pub image_size: u32,
    pub payload_size: u32,
    pub block_size_log2: u8,
    pub merkle_root: [u8; 4],
    pub image_hash: [u8; 32],
    pub codec_id: u8,
    pub hw_id: [u8; 32],
    pub base_hash: [u8; 8],
    pub signer: [u8; 32],
    pub signature: [u8; 64],
    pub approval: [u8; 4],
    pub block_count: u32,
}

impl Manifest {
    pub open spec fn has_flag(self, flag: u8) -> bool {
        self.flags & flag != 0
    }

    /// The size of a block: two to the power of its logarithm.
    pub open spec fn spec_block_size(self) -> nat {
        pow2(self.block_size_log2 as nat)
    }

    pub open spec fn spec_payload_off(self) -> int {
        HEADER_LEN + MFL + 4 * self.block_count
    }

    pub fn is_full(&self) -> (r: bool)
        ensures
            r == self.has_flag(MFLAG_FULL),
    {
        self.flags & MFLAG_FULL != 0
    }

    pub fn is_signed(&self) -> (r: bool)
        ensures
            r == self.has_flag(MFLAG_SIGNED),
    {
        self.flags & MFLAG_SIGNED != 0
    }

    pub fn is_bootloader(&self) -> (r: bool)
        ensures
            r == self.has_flag(MFLAG_BOOTLOADER),
    {
        self.flags & MFLAG_BOOTLOADER != 0
    }

    /// Whether the package carries an approval.
    pub fn is_approved(&self) -> (r: bool)
        ensures
            r == (self.approval@ == APPROVAL_APPROVED@),
    {
        bytes_eq(&self.approval, &APPROVAL_APPROVED)
    }

    /// The codec of the payload, if it is a known one.
    pub fn codec(&self) -> (r: Option<Codec>)
        ensures
            r == codec_of_id(self.codec_id),
    {
        Codec::from_id(self.codec_id)
    }

    /// The hardware id as text.
    pub fn hw_id_str(&self) -> (r: String)
        ensures
            r@ == cstr_text(self.hw_id@),
    {
        cstr(&self.hw_id)
    }

    /// The size of a block.
    pub fn block_size(&self) -> (r: u32)
        requires
            self.block_size_log2 < 32,
        ensures
            r == self.spec_block_size(),
    {
        proof {
            lemma_u32_pow2_no_overflow(self.block_size_log2 as nat);
            lemma_u32_shl_is_mul(1u32, self.block_size_log2 as u32);
        }
        1u32 << (self.block_size_log2 as u32)
    }

    /// Where the leaf table starts in the container.
    pub fn leaves_off(&self) -> (r: usize)
        ensures
            r == HEADER_LEN + MFL,
    {
        HEADER_LEN + MFL
    }

    /// Where the payload starts in the container.
    pub fn payload_off(&self) -> (r: usize)
        requires
            self.spec_payload_off() <= usize::MAX,
        ensures
            r == self.spec_payload_off(),
    {
        HEADER_LEN + MFL + self.block_count as usize * 4
    }
}

} // verus!
