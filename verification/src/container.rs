//! Reading a container: its framing, its manifest, and the profile of its format version.
use vstd::arithmetic::div_mod::lemma_fundamental_div_mod;
use vstd::arithmetic::power2::{lemma2_to64, lemma_pow2_strictly_increases, pow2};
use vstd::prelude::*;
use vstd::slice::slice_subrange;
use vstd::string::*;

use crate::bootloader::{image_validation, validate_bootloader_image, BootloaderError, IMAGE_SIZE};
use crate::bytes::{bytes_eq, le32_at, rd_u32, window, window_eq};
use crate::format::{
    APP_FORMAT_VER, BOOT_FORMAT_VER, HASH_ALGO_SHA256, HEADER_LEN, MAGIC, MFL, TRAILER, TRAILER_LEN,
};
use crate::manifest::Manifest;
use crate::off;
use crate::text::{dec, hex_fixed, push_dec, push_hex_fixed};
use crate::transport::block_count;

verus! {

/// The flags of a bootloader container.
pub const BOOT_FLAGS: u8 = 0x07;

/// The flags that an application container may have.
pub const APP_FLAGS_KNOWN: u8 = 0x03;

/// Why a container is refused.
#[derive(Clone, Copy, Debug, PartialEq, Eq, Structural)]
pub enum ContainerError {
    TooShort,
    Magic,
    /// The declared and the actual length.
    Length(u32, usize),
    Trailer,
    FormatVer(u8),
    AppFlags(u8),
    BootFlags(u8),
    HashAlgo(u8),
    BlockSizeMin,
    BlockSizeMax,
    BootBlocks,
    EmptyPayload,
    BlockCount(u32),
    Geometry,
    BootCodec,
    BootBase,
    BootSize,
    Boot(BootloaderError),
}

impl ContainerError {
    /// The message of the error.
    pub open spec fn message(self) -> Seq<char> {
        match self {
            ContainerError::TooShort => "container is shorter than its fixed parts"@,
            ContainerError::Magic => "bad container magic"@,
            ContainerError::Length(declared, actual) => "container declares "@ + dec(
                declared as int,
            ) + " bytes but has "@ + dec(actual as int),
            ContainerError::Trailer => "bad container trailer"@,
            ContainerError::FormatVer(v) => "unsupported format_ver "@ + dec(v as int),
            ContainerError::AppFlags(v) => "unsupported format_ver 2 flags 0x"@ + hex_fixed(
                v as int,
                2,
            ),
            ContainerError::BootFlags(v) =>
                "format_ver 3 requires exactly FULL|SIGNED|BOOTLOADER flags, not 0x"@ + hex_fixed(
                v as int,
                2,
            ),
            ContainerError::HashAlgo(v) => "unsupported hash algorithm 0x"@ + hex_fixed(
                v as int,
                2,
            ),
            ContainerError::BlockSizeMin => "v2 application block size must be at least 2 bytes"@,
            ContainerError::BlockSizeMax =>
                "v2 application block size must be at most 2048 bytes"@,
            ContainerError::BootBlocks =>
                "a bootloader package requires 40 blocks of 1024 bytes"@,
            ContainerError::EmptyPayload => "container has no payload"@,
            ContainerError::BlockCount(n) => "payload yields an invalid block count ("@ + dec(
                n as int,
            ) + ")"@,
            ContainerError::Geometry => "container length does not match its leaves and payload"@,
            ContainerError::BootCodec => "a bootloader package requires the full codec"@,
            ContainerError::BootBase => "a bootloader package requires a zero base hash"@,
            ContainerError::BootSize => "a bootloader package requires a 40960-byte image"@,
            ContainerError::Boot(e) => e.message(),
        }
    }

    /// Writes the error's message.
    pub fn to_string(&self) -> (s: String)
        ensures
            s@ == self.message(),
    {
        match self {
            ContainerError::TooShort => String::from_str(
                "container is shorter than its fixed parts",
            ),
            ContainerError::Magic => String::from_str("bad container magic"),
            ContainerError::Length(declared, actual) => {
                let mut s = String::from_str("container declares ");
                push_dec(&mut s, *declared as u64);
                s.append(" bytes but has ");
                push_dec(&mut s, *actual as u64);
                s
            },
            ContainerError::Trailer => String::from_str("bad container trailer"),
            ContainerError::FormatVer(v) => {
                let mut s = String::from_str("unsupported format_ver ");
                push_dec(&mut s, *v as u64);
                s
            },
            ContainerError::AppFlags(v) => {
                let mut s = String::from_str("unsupported format_ver 2 flags 0x");
                push_hex_fixed(&mut s, *v as u64, 2);
                s
            },
            ContainerError::BootFlags(v) => {
                let mut s = String::from_str(
                    "format_ver 3 requires exactly FULL|SIGNED|BOOTLOADER flags, not 0x",
                );
                push_hex_fixed(&mut s, *v as u64, 2);
                s
            },
            ContainerError::HashAlgo(v) => {
                let mut s = String::from_str("unsupported hash algorithm 0x");
                push_hex_fixed(&mut s, *v as u64, 2);
                s
            },
            ContainerError::BlockSizeMin => String::from_str(
                "v2 application block size must be at least 2 bytes",
            ),
            ContainerError::BlockSizeMax => String::from_str(
                "v2 application block size must be at most 2048 bytes",
            ),
            ContainerError::BootBlocks => String::from_str(
                "a bootloader package requires 40 blocks of 1024 bytes",
            ),
            ContainerError::EmptyPayload => String::from_str("container has no payload"),
            ContainerError::BlockCount(n) => {
                let mut s = String::from_str("payload yields an invalid block count (");
                push_dec(&mut s, *n as u64);
                s.append(")");
                s
            },
            ContainerError::Geometry => String::from_str(
                "container length does not match its leaves and payload",
            ),
            ContainerError::BootCodec => String::from_str(
                "a bootloader package requires the full codec",
            ),
            ContainerError::BootBase => String::from_str(
                "a bootloader package requires a zero base hash",
            ),
            ContainerError::BootSize => String::from_str(
                "a bootloader package requires a 40960-byte image",
            ),
            ContainerError::Boot(e) => e.to_string(),
        }
    }
}

/// The manifest of a container as bytes.
pub open spec fn manifest_bytes(blob: Seq<u8>) -> Seq<u8> {
    window(blob, HEADER_LEN as int, MFL as int)
}

/// The leaf table of a container with the given number of blocks.
pub open spec fn leaf_table(blob: Seq<u8>, count: int) -> Seq<u8> {
    window(blob, HEADER_LEN + MFL, 4 * count)
}

/// The payload of a container with the given geometry.
pub open spec fn payload_of(blob: Seq<u8>, count: int, size: int) -> Seq<u8> {
    window(blob, HEADER_LEN + MFL + 4 * count, size)
}

impl Manifest {
    /// Whether the manifest's fields are those of its 197 bytes.
    #[verifier::opaque]
    pub open spec fn reads(self, mf: Seq<u8>) -> bool {
        &&& self.format_ver == mf[off::FORMAT_VER as int]
        &&& self.flags == mf[off::FLAGS as int]
        &&& self.hash_algo == mf[off::HASH_ALGO as int]
        &&& self.target_id == le32_at(mf, off::TARGET_ID as int)
        &&& self.fw_version == le32_at(mf, off::FW_VERSION as int)
        &&& self.image_size == le32_at(mf, off::IMAGE_SIZE as int)
        &&& self.payload_size == le32_at(mf, off::PAYLOAD_SIZE as int)
        &&& self.block_size_log2 == mf[off::BLOCK_SIZE_LOG2 as int]
        &&& self.merkle_root@ == window(mf, off::MERKLE_ROOT as int, 4)
        &&& self.image_hash@ == window(mf, off::IMAGE_HASH as int, 32)
        &&& self.codec_id == mf[off::CODEC_ID as int]
        &&& self.hw_id@ == window(mf, off::HW_ID as int, 32)
        &&& self.base_hash@ == window(mf, off::BASE_HASH as int, 8)
        &&& self.signer@ == window(mf, off::SIGNER as int, 32)
        &&& self.signature@ == window(mf, off::SIGNATURE as int, 64)
        &&& self.approval@ == window(mf, off::APPROVAL as int, 4)
    }

    /// The number of blocks that the payload makes.
    pub open spec fn implied_blocks(self) -> int {
        block_count(self.payload_size as int, self.spec_block_size() as int)
    }

    /// What is wrong with a manifest of a container of `len` bytes, but for a bootloader's payload.
    pub open spec fn field_fault(self, len: int) -> Option<ContainerError> {
        let boot = self.format_ver == BOOT_FORMAT_VER;
        if !boot && self.format_ver != APP_FORMAT_VER {
            Some(ContainerError::FormatVer(self.format_ver))
        } else if !boot && self.flags & !APP_FLAGS_KNOWN != 0 {
            Some(ContainerError::AppFlags(self.flags))
        } else if boot && self.flags != BOOT_FLAGS {
            Some(ContainerError::BootFlags(self.flags))
        } else if self.hash_algo != HASH_ALGO_SHA256 {
            Some(ContainerError::HashAlgo(self.hash_algo))
        } else if !boot && self.block_size_log2 > 11 {
            Some(ContainerError::BlockSizeMax)
        } else if !boot && self.block_size_log2 < 1 {
            Some(ContainerError::BlockSizeMin)
        } else if boot && self.block_size_log2 != 10 {
            Some(ContainerError::BootBlocks)
        } else if self.payload_size == 0 {
            Some(ContainerError::EmptyPayload)
        } else if self.implied_blocks() > 0xFFFF {
            Some(ContainerError::BlockCount(self.implied_blocks() as u32))
        } else if HEADER_LEN + MFL + 4 * self.implied_blocks() + self.payload_size + TRAILER_LEN
            != len {
            Some(ContainerError::Geometry)
        } else if boot && self.codec_id != 0 {
            Some(ContainerError::BootCodec)
        } else if boot && self.base_hash@ != Seq::new(8, |i: int| 0u8) {
            Some(ContainerError::BootBase)
        } else if boot && (self.image_size != IMAGE_SIZE || self.payload_size != IMAGE_SIZE) {
            Some(ContainerError::BootSize)
        } else {
            None
        }
    }
}

/// What is wrong with the framing of a container.
pub open spec fn framing_fault(blob: Seq<u8>) -> Option<ContainerError> {
    if blob.len() < HEADER_LEN + MFL + TRAILER_LEN {
        Some(ContainerError::TooShort)
    } else if window(blob, 0, 4) != MAGIC@ {
        Some(ContainerError::Magic)
    } else if le32_at(blob, 4) != blob.len() {
        Some(ContainerError::Length(le32_at(blob, 4), blob.len() as usize))
    } else if window(blob, blob.len() - TRAILER_LEN, TRAILER_LEN as int) != TRAILER@ {
        Some(ContainerError::Trailer)
    } else {
        None
    }
}

/// What is wrong with a container whose manifest has the fields of `m`.
pub open spec fn container_fault(blob: Seq<u8>, m: Manifest) -> Option<ContainerError> {
    if framing_fault(blob) is Some {
        framing_fault(blob)
    } else if m.field_fault(blob.len() as int) is Some {
        m.field_fault(blob.len() as int)
    } else if m.format_ver == BOOT_FORMAT_VER {
        match image_validation(
            payload_of(blob, m.implied_blocks(), m.payload_size as int),
            m.target_id,
            m.hw_id@,
            m.fw_version,
        ) {
            Ok(_) => None,
            Err(e) => Some(ContainerError::Boot(e)),
        }
    } else {
        None
    }
}

/// The `N` bytes of `b` from `at` on.
fn array_at<const N: usize>(b: &[u8], at: usize) -> (r: [u8; N])
    requires
        at + N <= b@.len(),
    ensures
        r@ == window(b@, at as int, N as int),
{
    let _len: usize = b.len();
    let mut r: [u8; N] = [0u8; N];
    let mut i: usize = 0;
    while i < N
        invariant
            i <= N,
            at + N <= b@.len() <= usize::MAX,
            forall|k: int| 0 <= k < i ==> r@[k] == b@[at + k],
        decreases N - i,
    {
        r[i] = b[at + i];
        i += 1;
    }
    assert(r@ =~= window(b@, at as int, N as int));
    r
}

fn all_zero(b: &[u8; 8]) -> (r: bool)
    ensures
        r == (b@ == Seq::new(8, |i: int| 0u8)),
{
    let zero: [u8; 8] = [0u8; 8];
    assert(zero@ =~= Seq::new(8, |i: int| 0u8));
    bytes_eq(b, &zero)
}

impl Manifest {
    /// Reads the fields of a manifest.
    fn read_fields(mf: &[u8]) -> (m: Manifest)
        requires
            mf@.len() == MFL,
        ensures
            m.reads(mf@),
            m.block_count == 0,
    {
        proof {
            reveal(Manifest::reads);
        }
        Manifest {
            format_ver: mf[off::FORMAT_VER],
            flags: mf[off::FLAGS],
            hash_algo: mf[off::HASH_ALGO],
            target_id: rd_u32(mf, off::TARGET_ID),
            fw_version: rd_u32(mf, off::FW_VERSION),
            image_size: rd_u32(mf, off::IMAGE_SIZE),
            payload_size: rd_u32(mf, off::PAYLOAD_SIZE),
            block_size_log2: mf[off::BLOCK_SIZE_LOG2],
            merkle_root: array_at::<4>(mf, off::MERKLE_ROOT),
            image_hash: array_at::<32>(mf, off::IMAGE_HASH),
            codec_id: mf[off::CODEC_ID],
            hw_id: array_at::<32>(mf, off::HW_ID),
            base_hash: array_at::<8>(mf, off::BASE_HASH),
            signer: array_at::<32>(mf, off::SIGNER),
            signature: array_at::<64>(mf, off::SIGNATURE),
            approval: array_at::<4>(mf, off::APPROVAL),
            block_count: 0,
        }
    }
}

/// Whether `m` is the manifest of a valid container.
pub open spec fn is_container(blob: Seq<u8>, m: Manifest) -> bool {
    &&& m.reads(manifest_bytes(blob))
    &&& m.block_count == m.implied_blocks()
    &&& container_fault(blob, m) is None
}

proof fn lemma_reads_decides(blob: Seq<u8>, a: Manifest, b: Manifest)
    requires
        a.reads(manifest_bytes(blob)),
        b.reads(manifest_bytes(blob)),
    ensures
        container_fault(blob, a) == container_fault(blob, b),
{
    reveal(Manifest::reads);
}

/// What parsing a container gives.
pub open spec fn parses_to(blob: Seq<u8>, r: Result<Manifest, ContainerError>) -> bool {
    match r {
        Ok(m) => is_container(blob, m),
        Err(e) => if framing_fault(blob) is Some {
            framing_fault(blob) == Some(e)
        } else {
            &&& exists|m: Manifest| #[trigger] m.reads(manifest_bytes(blob))
            &&& forall|m: Manifest| #[trigger]
                m.reads(manifest_bytes(blob)) ==> container_fault(blob, m) == Some(e)
        },
    }
}

/// A container parses in one way: to one error, or to manifests that agree in every field.
pub proof fn law_parse_is_deterministic(
    blob: Seq<u8>,
    a: Result<Manifest, ContainerError>,
    b: Result<Manifest, ContainerError>,
)
    requires
        parses_to(blob, a),
        parses_to(blob, b),
    ensures
        match (a, b) {
            (Ok(m), Ok(n)) => {
                &&& m.format_ver == n.format_ver
                &&& m.flags == n.flags
                &&& m.hash_algo == n.hash_algo
                &&& m.target_id == n.target_id
                &&& m.fw_version == n.fw_version
                &&& m.image_size == n.image_size
                &&& m.payload_size == n.payload_size
                &&& m.block_size_log2 == n.block_size_log2
                &&& m.merkle_root@ == n.merkle_root@
                &&& m.image_hash@ == n.image_hash@
                &&& m.codec_id == n.codec_id
                &&& m.hw_id@ == n.hw_id@
                &&& m.base_hash@ == n.base_hash@
                &&& m.signer@ == n.signer@
                &&& m.signature@ == n.signature@
                &&& m.approval@ == n.approval@
                &&& m.block_count == n.block_count
            },
            (Err(e), Err(f)) => e == f,
            _ => false,
        },
{
    reveal(Manifest::reads);
    if a is Ok && b is Err && framing_fault(blob) is None {
        assert(container_fault(blob, a->Ok_0) == Some(b->Err_0));
    }
    if b is Ok && a is Err && framing_fault(blob) is None {
        assert(container_fault(blob, b->Ok_0) == Some(a->Err_0));
    }
    if a is Err && b is Err && framing_fault(blob) is None {
        let m = choose|m: Manifest| #[trigger] m.reads(manifest_bytes(blob));
        assert(container_fault(blob, m) == Some(a->Err_0));
        assert(container_fault(blob, m) == Some(b->Err_0));
    }
}

/// The parts of a valid container lie one after another and fill it.
pub proof fn lemma_container_geometry(blob: Seq<u8>, m: Manifest)
    requires
        is_container(blob, m),
    ensures
        1 <= m.block_size_log2 <= 11,
        2 <= m.spec_block_size() <= 2048,
        m.payload_size > 0,
        blob.len() <= u32::MAX,
        m.spec_payload_off() + m.payload_size + TRAILER_LEN == blob.len(),
        blob.len() >= HEADER_LEN + MFL + TRAILER_LEN,
{
    lemma_block_sizes(m);
}

proof fn lemma_block_sizes(m: Manifest)
    requires
        1 <= m.block_size_log2 <= 11,
    ensures
        2 <= m.spec_block_size() <= 2048,
        m.block_size_log2 == 10 ==> m.spec_block_size() == 1024,
{
    lemma2_to64();
    if m.block_size_log2 < 11 {
        lemma_pow2_strictly_increases(m.block_size_log2 as nat, 11);
    }
    if m.block_size_log2 > 1 {
        lemma_pow2_strictly_increases(1, m.block_size_log2 as nat);
    }
}

impl Manifest {
    /// Counts the blocks of the payload.
    fn count_blocks(&self) -> (r: u32)
        requires
            1 <= self.block_size_log2 <= 11,
        ensures
            r == self.implied_blocks(),
    {
        proof {
            lemma_block_sizes(*self);
        }
        let size: u64 = self.block_size() as u64;
        let x: u64 = self.payload_size as u64 + size - 1;
        assert(x / size <= x) by (nonlinear_arith)
            requires
                size > 0,
        ;
        assert(x / size < 0x1_0000_0000) by (nonlinear_arith)
            requires
                x <= 0xFFFF_FFFF + 2047,
                size >= 2,
        ;
        (x / size) as u32
    }

    /// What is wrong with the fields of a manifest of a container of `len` bytes.
    fn check_fields(&self, len: usize) -> (r: Option<ContainerError>)
        ensures
            r == self.field_fault(len as int),
    {
        let boot = self.format_ver == BOOT_FORMAT_VER;
        if !boot && self.format_ver != APP_FORMAT_VER {
            return Some(ContainerError::FormatVer(self.format_ver));
        }
        if !boot && self.flags & !APP_FLAGS_KNOWN != 0 {
            return Some(ContainerError::AppFlags(self.flags));
        }
        if boot && self.flags != BOOT_FLAGS {
            return Some(ContainerError::BootFlags(self.flags));
        }
        if self.hash_algo != HASH_ALGO_SHA256 {
            return Some(ContainerError::HashAlgo(self.hash_algo));
        }
        if !boot && self.block_size_log2 > 11 {
            return Some(ContainerError::BlockSizeMax);
        }
        if !boot && self.block_size_log2 < 1 {
            return Some(ContainerError::BlockSizeMin);
        }
        if boot && self.block_size_log2 != 10 {
            return Some(ContainerError::BootBlocks);
        }
        if self.payload_size == 0 {
            return Some(ContainerError::EmptyPayload);
        }
        let count: u32 = self.count_blocks();
        if count > 0xFFFF {
            return Some(ContainerError::BlockCount(count));
        }
        let total: u64 = HEADER_LEN as u64 + MFL as u64 + 4 * count as u64 + self.payload_size as u64
            + TRAILER_LEN as u64;
        if total != len as u64 {
            return Some(ContainerError::Geometry);
        }
        if boot && self.codec_id != 0 {
            return Some(ContainerError::BootCodec);
        }
        if boot && !all_zero(&self.base_hash) {
            return Some(ContainerError::BootBase);
        }
        if boot && (self.image_size as usize != IMAGE_SIZE || self.payload_size as usize
            != IMAGE_SIZE) {
            return Some(ContainerError::BootSize);
        }
        None
    }

    /// Parses a container: its framing, its manifest, and for a bootloader package the complete
    /// contract of its payload. Hashes and signatures are not checked here.
    pub fn parse(blob: &[u8]) -> (r: Result<Manifest, ContainerError>)
        ensures
            parses_to(blob@, r),
    {
        let len: usize = blob.len();
        if len < HEADER_LEN + MFL + TRAILER_LEN {
            return Err(ContainerError::TooShort);
        }
        if !window_eq(blob, 0, &MAGIC) {
            return Err(ContainerError::Magic);
        }
        let declared: u32 = rd_u32(blob, 4);
        if declared as usize != len {
            return Err(ContainerError::Length(declared, len));
        }
        if !window_eq(blob, len - TRAILER_LEN, &TRAILER) {
            return Err(ContainerError::Trailer);
        }
        let mf = slice_subrange(blob, HEADER_LEN, HEADER_LEN + MFL);
        assert(mf@ == manifest_bytes(blob@));
        let mut m = Manifest::read_fields(mf);
        proof {
            assert forall|o: Manifest| #[trigger] o.reads(manifest_bytes(blob@)) implies
                container_fault(blob@, o) == container_fault(blob@, m) by {
                lemma_reads_decides(blob@, o, m);
            }
            assert(m.reads(manifest_bytes(blob@)));
        }
        if let Some(e) = m.check_fields(len) {
            return Err(e);
        }
        let count: u32 = m.count_blocks();
        if m.format_ver == BOOT_FORMAT_VER {
            let start: usize = HEADER_LEN + MFL + 4 * count as usize;
            let payload = slice_subrange(blob, start, start + m.payload_size as usize);
            assert(payload@ == payload_of(
                blob@,
                m.implied_blocks(),
                m.payload_size as int,
            ));
            match validate_bootloader_image(payload, m.target_id, &m.hw_id, m.fw_version) {
                Ok(_) => {},
                Err(e) => {
                    return Err(ContainerError::Boot(e));
                },
            }
        }
        let ghost fields = m;
        m.block_count = count;
        proof {
            reveal(Manifest::reads);
            assert(m.reads(manifest_bytes(blob@)));
            lemma_reads_decides(blob@, fields, m);
        }
        Ok(m)
    }
}

/// Where a container keeps its fields: the manifest is the 197 bytes from byte 8 on.
pub proof fn law_parsed_fields(blob: Seq<u8>, m: Manifest)
    requires
        is_container(blob, m),
    ensures
        m.format_ver == blob[8],
        m.flags == blob[9],
        m.hash_algo == blob[10],
        m.target_id == le32_at(blob, 11),
        m.fw_version == le32_at(blob, 15),
        m.image_size == le32_at(blob, 19),
        m.payload_size == le32_at(blob, 23),
        m.block_size_log2 == blob[27],
        m.merkle_root@ == blob.subrange(28, 32),
        m.image_hash@ == blob.subrange(32, 64),
        m.codec_id == blob[64],
        m.hw_id@ == blob.subrange(65, 97),
        m.base_hash@ == blob.subrange(97, 105),
        m.signer@ == blob.subrange(105, 137),
        m.signature@ == blob.subrange(137, 201),
        m.approval@ == blob.subrange(201, 205),
{
    reveal(Manifest::reads);
    reveal(le32_at);
    let mf = manifest_bytes(blob);
    assert(window(mf, 20, 4) =~= blob.subrange(28, 32));
    assert(window(mf, 24, 32) =~= blob.subrange(32, 64));
    assert(window(mf, 57, 32) =~= blob.subrange(65, 97));
    assert(window(mf, 89, 8) =~= blob.subrange(97, 105));
    assert(window(mf, 97, 32) =~= blob.subrange(105, 137));
    assert(window(mf, 129, 64) =~= blob.subrange(137, 201));
    assert(window(mf, 193, 4) =~= blob.subrange(201, 205));
}

/// Which bytes are a container, given the fields at their places. It starts with `mOTA` and its own
/// length and ends in `/mOTA`. The payload is not empty, makes at most 65535 blocks, and fills what
/// lies between leaf table and trailer. Format 2 uses flag bits 0 and 1 at most and blocks of 2 to
/// 2048 bytes. Format 3 is the bootloader profile: flags 7, blocks of 1024 bytes, the full codec, no
/// base, and a 40960-byte image that is accepted under the container's identity. No other format, and
/// no other hash than SHA-256, is accepted.
pub proof fn law_container_form(blob: Seq<u8>, m: Manifest)
    requires
        m.reads(manifest_bytes(blob)),
        blob.len() >= 210,
        0 < m.block_size_log2 < 32 ==> m.block_count == (m.payload_size + pow2(
            m.block_size_log2 as nat,
        ) - 1) / pow2(m.block_size_log2 as nat) as int,
    ensures
        is_container(blob, m) <==> {
            let start = 205 + 4 * m.block_count;
            &&& blob.subrange(0, 4) == seq![0x6Du8, 0x4F, 0x54, 0x41]
            &&& le32_at(blob, 4) == blob.len()
            &&& blob.subrange(blob.len() - 5, blob.len() as int) == seq![
                0x2Fu8, 0x6D, 0x4F, 0x54, 0x41,
            ]
            &&& m.hash_algo == 0x12
            &&& m.payload_size > 0
            &&& m.block_count <= 65535
            &&& start + m.payload_size + 5 == blob.len()
            &&& if m.format_ver == 3 {
                &&& m.flags == 7
                &&& m.block_size_log2 == 10
                &&& m.codec_id == 0
                &&& m.base_hash@ == seq![0u8, 0, 0, 0, 0, 0, 0, 0]
                &&& m.image_size == 40960 && m.payload_size == 40960
                &&& image_validation(
                    blob.subrange(start, start + 40960),
                    m.target_id,
                    m.hw_id@,
                    m.fw_version,
                ) is Ok
            } else {
                &&& m.format_ver == 2
                &&& m.flags <= 3
                &&& 1 <= m.block_size_log2 <= 11
            }
        },
{
    let flags = m.flags;
    assert(flags & !0x03u8 == 0 <==> flags <= 3) by (bit_vector);
    assert(MAGIC@ =~= seq![0x6Du8, 0x4F, 0x54, 0x41]);
    assert(TRAILER@ =~= seq![0x2Fu8, 0x6D, 0x4F, 0x54, 0x41]);
    assert(Seq::new(8, |i: int| 0u8) =~= seq![0u8, 0, 0, 0, 0, 0, 0, 0]);
    assert(window(blob, 0, 4) == blob.subrange(0, 4));
    assert(window(blob, blob.len() - 5, 5) == blob.subrange(blob.len() - 5, blob.len() as int));
    if 1 <= m.block_size_log2 <= 11 {
        lemma_block_sizes(m);
        let bs = m.spec_block_size() as int;
        let x = m.payload_size + bs - 1;
        assert(0 <= x / bs) by (nonlinear_arith)
            requires
                0 <= x,
                0 < bs,
        ;
    }
    assert(payload_of(blob, m.block_count as int, 40960) == blob.subrange(
        205 + 4 * m.block_count,
        205 + 4 * m.block_count + 40960,
    ));
}

/// Less than 210 bytes are no container.
pub proof fn law_short_blob_refused(blob: Seq<u8>, r: Result<Manifest, ContainerError>)
    requires
        blob.len() < 210,
        parses_to(blob, r),
    ensures
        r == Err::<Manifest, ContainerError>(ContainerError::TooShort),
{
}

/// The blocks of a container cover its payload: one less would not.
pub proof fn law_blocks_cover_payload(blob: Seq<u8>, m: Manifest)
    requires
        is_container(blob, m),
    ensures
        ({
            let bs = pow2(m.block_size_log2 as nat) as int;
            (m.block_count - 1) * bs < m.payload_size <= m.block_count * bs
        }),
{
    lemma_container_geometry(blob, m);
    let bs = m.spec_block_size() as int;
    let x = m.payload_size + bs - 1;
    let q = m.block_count as int;
    lemma_fundamental_div_mod(x, bs);
    assert((q - 1) * bs == bs * q - bs && q * bs == bs * q) by (nonlinear_arith);
}

/// Why a blob is refused, in the order in which it is looked at: too short, no magic, a length that
/// is not its own, no trailer. Then, by the bytes of its manifest: a format other than 2 and 3, and
/// flags that the format does not have.
pub proof fn law_parse_refusals(blob: Seq<u8>, r: Result<Manifest, ContainerError>)
    requires
        parses_to(blob, r),
    ensures
        ({
            let magic = blob.subrange(0, 4) == seq![0x6Du8, 0x4F, 0x54, 0x41];
            let length = le32_at(blob, 4) == blob.len();
            let trailer = blob.subrange(blob.len() - 5, blob.len() as int) == seq![
                0x2Fu8, 0x6D, 0x4F, 0x54, 0x41,
            ];
            let (format, flags) = (blob[8], blob[9]);
            let err = |e: ContainerError| r == Err::<Manifest, ContainerError>(e);
            if blob.len() < 210 {
                err(ContainerError::TooShort)
            } else if !magic {
                err(ContainerError::Magic)
            } else if !length {
                err(ContainerError::Length(le32_at(blob, 4), blob.len() as usize))
            } else if !trailer {
                err(ContainerError::Trailer)
            } else if format != 2 && format != 3 {
                err(ContainerError::FormatVer(format))
            } else if format == 2 && flags > 3 {
                err(ContainerError::AppFlags(flags))
            } else if format == 3 && flags != 7 {
                err(ContainerError::BootFlags(flags))
            } else if blob[10] != 0x12 {
                err(ContainerError::HashAlgo(blob[10]))
            } else {
                true
            }
        }),
{
    reveal(Manifest::reads);
    assert(MAGIC@ =~= seq![0x6Du8, 0x4F, 0x54, 0x41]);
    assert(TRAILER@ =~= seq![0x2Fu8, 0x6D, 0x4F, 0x54, 0x41]);
    if blob.len() >= 210 {
        assert(window(blob, 0, 4) == blob.subrange(0, 4));
        assert(window(blob, blob.len() - 5, 5) == blob.subrange(blob.len() - 5, blob.len() as int));
        let flags = blob[9];
        assert(flags & !0x03u8 == 0 <==> flags <= 3) by (bit_vector);
        if framing_fault(blob) is None {
            let m = match r {
                Ok(m) => m,
                Err(_) => choose|m: Manifest| #[trigger] m.reads(manifest_bytes(blob)),
            };
            assert(m.reads(manifest_bytes(blob)));
            assert(m.format_ver == blob[8] && m.flags == blob[9] && m.hash_algo == blob[10]);
        }
    }
}

} // verus!
