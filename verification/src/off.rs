//! Where each field stands in a container's manifest.
use vstd::prelude::*;

verus! {

pub const FORMAT_VER: usize = 0;

pub const FLAGS: usize = 1;

pub const HASH_ALGO: usize = 2;

pub const TARGET_ID: usize = 3;

pub const FW_VERSION: usize = 7;

pub const IMAGE_SIZE: usize = 11;

pub const PAYLOAD_SIZE: usize = 15;

pub const BLOCK_SIZE_LOG2: usize = 19;

pub const MERKLE_ROOT: usize = 20;

pub const IMAGE_HASH: usize = 24;

pub const CODEC_ID: usize = 56;

pub const HW_ID: usize = 57;

pub const BASE_HASH: usize = 89;

pub const SIGNER: usize = 97;

pub const SIGNATURE: usize = 129;

pub const APPROVAL: usize = 193;

} // verus!
