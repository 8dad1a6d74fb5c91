//! Building a `.mota` container from a firmware image.
//!
//! The payload of a full container is the image itself. The payload of a delta is a patch from a
//! base image, made by a patch encoder from what [`plan_build`] decides: the container is otherwise
//! the same, but its codec marks the patch type and its base hash pins the image that the delta
//! applies to.
use vstd::arithmetic::div_mod::{lemma_fundamental_div_mod, lemma_fundamental_div_mod_converse};
use vstd::arithmetic::power2::{lemma2_to64, lemma_pow2_strictly_increases, pow2};
use vstd::prelude::*;

use vstd::string::*;
use vstd::utf8::*;

use crate::assemble::{
    container_bytes, encode_container, encode_head, encoded_head, encoded_manifest,
    law_container_reads_back, law_manifest_reads_back,
};
use crate::bytes::{low32, window};
use crate::container::{
    container_fault, is_container, manifest_bytes, payload_of, APP_FLAGS_KNOWN,
};
use crate::crypto::{
    ed25519_accepts, ed25519_public, ed25519_public_from_seed, ed25519_sign, ed25519_signature,
    sha256, sha256_of, truncated_hash,
};
use crate::endf::{
    endf_body, ensure_endf, fixed_field, has_endf, image_ident, is_trailed,
    law_ensure_endf_idempotent, law_ident_reads_back, law_trailer_keeps_image, parse_ident, trailed,
};
use crate::format::{
    FwIdent, FwIdentView, APPROVAL_NONE, APP_FORMAT_VER, HASH_ALGO_SHA256, HEADER_LEN, HW_ID_LEN,
    MFL, MFLAG_FULL, MFLAG_SIGNED, TRAILER_LEN,
};
use crate::manifest::{codec_of_id, Codec, Manifest};
use crate::merkle::{
    hash_views, law_leaves_cover_payload, leaf_hashes, leaves_of, root, root_of,
};
use crate::plan::{
    inplace_plan, plan_inplace, staging_fault, validate_staging_fit, InplacePlan, PlanError,
};
use crate::text::{
    bytes_hex_upper, debug_text, dec, hex_encode_upper, hex_fixed, push_dec, push_hex_fixed,
    str_debug, str_eq,
};
use crate::transport::{block_count, is_transport_block_size};
use crate::verify::{
    all_problems, has_problem, joined, leaf_bytes, lemma_joined_len, lemma_none_present,
    problems_of, Problem,
};
use crate::version::{version_str, version_text};

verus! {

/// How a delta is laid out.
#[derive(Clone, Copy, Debug, PartialEq, Eq, Structural)]
pub enum PatchType {
    Sequential,
    InPlace,
}

/// What to build.
pub struct BuildOpts {
    pub fw: Vec<u8>,
    pub base: Option<Vec<u8>>,
    /// The delta's layout, where there is a base.
    pub patch_type: PatchType,
    /// The in-place window. `None` derives it from the images' layout records.
    pub inplace_memory: Option<u32>,
    /// The segment of an in-place delta.
    pub segment_size: u32,
    /// These three win over the firmware's own identity.
    pub target_id: Option<u32>,
    pub fw_version: Option<u32>,
    pub hw_id: Option<String>,
    pub sign_seed: Option<[u8; 32]>,
    pub block_size: u32,
    /// Build a delta across differing hardware.
    pub force: bool,
}

/// A container with what it was built from.
pub struct Built {
    pub bytes: Vec<u8>,
    pub suggested_name: String,
    pub manifest: Manifest,
    /// The in-place window of the payload (`None` for full and sequential packages).
    pub inplace_memory: Option<u32>,
}

/// Why a container cannot be built.
#[derive(Clone, Debug, PartialEq, Eq)]
pub enum BuildError {
    BlockSize,
    BaseWithoutEndf,
    /// The hardware of base and target.
    Hardware(String, String),
    Plan(PlanError),
    BlockCount(usize),
}

/// A `BuildError` with its texts as sequences.
#[verifier::ext_equal]
pub enum BuildFault {
    BlockSize,
    BaseWithoutEndf,
    Hardware(Seq<char>, Seq<char>),
    Plan(PlanError),
    BlockCount(int),
}

impl View for BuildError {
    type V = BuildFault;

    open spec fn view(&self) -> BuildFault {
        match self {
            BuildError::BlockSize => BuildFault::BlockSize,
            BuildError::BaseWithoutEndf => BuildFault::BaseWithoutEndf,
            BuildError::Hardware(a, b) => BuildFault::Hardware(a@, b@),
            BuildError::Plan(e) => BuildFault::Plan(*e),
            BuildError::BlockCount(n) => BuildFault::BlockCount(*n as int),
        }
    }
}

impl BuildError {
    /// The message of the error.
    pub open spec fn message(self) -> Seq<char> {
        match self {
            BuildError::BlockSize =>
                "application block size must be a power of two between 2 and 2048 bytes"@,
            BuildError::BaseWithoutEndf =>
                "--base must be a real firmware image with its EndF trailer (the device's running image); this one has none"@,
            BuildError::Hardware(a, b) => "base hardware "@ + str_debug(a@)
                + " != target hardware "@ + str_debug(b@)
                + "; a cross-hardware delta will not apply (use --force to override)"@,
            BuildError::Plan(e) => e.message(),
            BuildError::BlockCount(n) => "payload yields an invalid block count ("@ + dec(n as int)
                + ")"@,
        }
    }

    /// Writes the error's message.
    pub fn to_string(&self) -> (s: String)
        ensures
            s@ == self.message(),
    {
        match self {
            BuildError::BlockSize => String::from_str(
                "application block size must be a power of two between 2 and 2048 bytes",
            ),
            BuildError::BaseWithoutEndf => String::from_str(
                "--base must be a real firmware image with its EndF trailer (the device's running image); this one has none",
            ),
            BuildError::Hardware(a, b) => {
                let mut s = String::from_str("base hardware ");
                s.append(debug_text(a.as_str()).as_str());
                s.append(" != target hardware ");
                s.append(debug_text(b.as_str()).as_str());
                s.append("; a cross-hardware delta will not apply (use --force to override)");
                s
            },
            BuildError::Plan(e) => e.to_string(),
            BuildError::BlockCount(n) => {
                let mut s = String::from_str("payload yields an invalid block count (");
                push_dec(&mut s, *n as u64);
                s.append(")");
                s
            },
        }
    }
}

/// The identity of a build: explicit options win over the firmware's trailer.
pub open spec fn resolved_ident(o: BuildOpts) -> FwIdentView {
    let own = image_ident(o.fw@);
    FwIdentView {
        fw_version: match o.fw_version {
            Some(v) => v,
            None => own.fw_version,
        },
        target_id: match o.target_id {
            Some(v) => v,
            None => own.target_id,
        },
        hw_id: match o.hw_id {
            Some(s) => s@,
            None => own.hw_id,
        },
    }
}

/// The image that a build describes: the firmware with its trailer.
pub open spec fn target_image(o: BuildOpts) -> Seq<u8> {
    trailed(o.fw@, resolved_ident(o))
}

/// What is decided about a delta before its patch is made.
pub struct DeltaPlan {
    pub codec: Codec,
    /// The image that the patch applies to.
    pub base_image: Vec<u8>,
    /// What the device compares with its running image's body hash.
    pub base_hash: [u8; 8],
    pub inplace: Option<InplacePlan>,
}

/// What is decided about a container before its payload is known.
pub struct BuildPlan {
    pub ident: FwIdent,
    /// The image that the container describes.
    pub image: Vec<u8>,
    /// `None` for a full container.
    pub delta: Option<DeltaPlan>,
}

/// The codec of a build.
pub open spec fn build_codec(o: BuildOpts) -> Codec {
    if o.base is None {
        Codec::Full
    } else {
        match o.patch_type {
            PatchType::Sequential => Codec::DetoolsSequential,
            PatchType::InPlace => Codec::DetoolsInplace,
        }
    }
}

/// What keeps a delta from being planned.
pub open spec fn delta_fault(o: BuildOpts) -> Option<BuildFault> {
    let base = o.base->0@;
    if !is_trailed(base) {
        Some(BuildFault::BaseWithoutEndf)
    } else if !o.force && image_ident(base).hw_id != resolved_ident(o).hw_id {
        Some(BuildFault::Hardware(image_ident(base).hw_id, resolved_ident(o).hw_id))
    } else {
        match o.patch_type {
            PatchType::Sequential => None,
            PatchType::InPlace => match inplace_plan(
                o.segment_size,
                o.inplace_memory,
                base,
                target_image(o),
            ) {
                Ok(_) => None,
                Err(e) => Some(BuildFault::Plan(e)),
            },
        }
    }
}

/// What keeps a build from being planned.
pub open spec fn plan_fault(o: BuildOpts) -> Option<BuildFault> {
    if !is_transport_block_size(o.block_size as int) {
        Some(BuildFault::BlockSize)
    } else if o.base is Some {
        delta_fault(o)
    } else {
        None
    }
}

/// Whether `plan` is the plan of a build.
pub open spec fn is_plan(o: BuildOpts, plan: BuildPlan) -> bool {
    &&& plan.ident@ == resolved_ident(o)
    &&& plan.image@ == target_image(o)
    &&& match plan.delta {
        None => o.base is None,
        Some(d) => {
            &&& o.base is Some
            &&& d.codec == build_codec(o)
            &&& d.base_image@ == o.base->0@
            &&& d.base_hash@ == truncated_hash(endf_body(o.base->0@), 8)
            &&& match o.patch_type {
                PatchType::Sequential => d.inplace is None,
                PatchType::InPlace => d.inplace is Some && inplace_plan(
                    o.segment_size,
                    o.inplace_memory,
                    o.base->0@,
                    target_image(o),
                ) == Ok::<InplacePlan, PlanError>(d.inplace->0),
            }
        },
    }
}

/// Resolves the identity of a build.
fn resolve_ident(o: &BuildOpts) -> (r: FwIdent)
    ensures
        r@ == resolved_ident(*o),
{
    let own = parse_ident(o.fw.as_slice());
    let hw_id = match &o.hw_id {
        Some(s) => s.clone(),
        None => own.hw_id,
    };
    FwIdent {
        fw_version: match o.fw_version {
            Some(v) => v,
            None => own.fw_version,
        },
        target_id: match o.target_id {
            Some(v) => v,
            None => own.target_id,
        },
        hw_id,
    }
}

/// Decides what a delta from `base` is made of. The delta applies to the device's actual running
/// image, which carries its own trailer: a base without one is refused, since a patch against it
/// would fail on the device.
fn plan_delta(o: &BuildOpts, ident: &FwIdent, image: &[u8], base: &Vec<u8>) -> (r: Result<
    DeltaPlan,
    BuildError,
>)
    requires
        o.base is Some,
        *base == o.base->0,
        ident@ == resolved_ident(*o),
        image@ == target_image(*o),
    ensures
        match r {
            Ok(d) => {
                &&& delta_fault(*o) is None
                &&& d.codec == build_codec(*o)
                &&& d.base_image@ == base@
                &&& d.base_hash@ == truncated_hash(endf_body(base@), 8)
                &&& match o.patch_type {
                    PatchType::Sequential => d.inplace is None,
                    PatchType::InPlace => d.inplace is Some && inplace_plan(
                        o.segment_size,
                        o.inplace_memory,
                        base@,
                        image@,
                    ) == Ok::<InplacePlan, PlanError>(d.inplace->0),
                }
            },
            Err(e) => delta_fault(*o) == Some(e@),
        },
{
    if !has_endf(base.as_slice()) {
        return Err(BuildError::BaseWithoutEndf);
    }
    let base_ident = parse_ident(base.as_slice());
    if !o.force && !str_eq(base_ident.hw_id.as_str(), ident.hw_id.as_str()) {
        return Err(BuildError::Hardware(base_ident.hw_id, ident.hw_id.clone()));
    }
    let (base_image, base_hash) = ensure_endf(base.as_slice(), &base_ident);
    match o.patch_type {
        PatchType::Sequential => Ok(
            DeltaPlan { codec: Codec::DetoolsSequential, base_image, base_hash, inplace: None },
        ),
        PatchType::InPlace => match plan_inplace(
            o.segment_size,
            o.inplace_memory,
            base_image.as_slice(),
            image,
        ) {
            Err(e) => Err(BuildError::Plan(e)),
            Ok(plan) => Ok(
                DeltaPlan {
                    codec: Codec::DetoolsInplace,
                    base_image,
                    base_hash,
                    inplace: Some(plan),
                },
            ),
        },
    }
}

/// Decides everything about a container that does not depend on a delta's patch.
pub fn plan_build(o: &BuildOpts) -> (r: Result<BuildPlan, BuildError>)
    ensures
        match r {
            Ok(plan) => {
                &&& plan_fault(*o) is None
                &&& is_plan(*o, plan)
                &&& plan.ident.fw_version == match o.fw_version {
                    Some(v) => v,
                    None => image_ident(o.fw@).fw_version,
                }
                &&& plan.ident.target_id == match o.target_id {
                    Some(t) => t,
                    None => image_ident(o.fw@).target_id,
                }
                &&& plan.ident.hw_id@ == match o.hw_id {
                    Some(h) => h@,
                    None => image_ident(o.fw@).hw_id,
                }
            },
            Err(e) => plan_fault(*o) == Some(e@),
        },
{
    if !(o.block_size == 2 || o.block_size == 4 || o.block_size == 8 || o.block_size == 16
        || o.block_size == 32 || o.block_size == 64 || o.block_size == 128 || o.block_size == 256
        || o.block_size == 512 || o.block_size == 1024 || o.block_size == 2048) {
        return Err(BuildError::BlockSize);
    }
    let ident = resolve_ident(o);
    let (image, _) = ensure_endf(o.fw.as_slice(), &ident);
    let delta = match &o.base {
        None => None,
        Some(base) => match plan_delta(o, &ident, image.as_slice(), base) {
            Err(e) => {
                return Err(e);
            },
            Ok(d) => Some(d),
        },
    };
    Ok(BuildPlan { ident, image, delta })
}

/// The logarithm of a block size.
fn block_size_log2(bs: u32) -> (r: u8)
    requires
        is_transport_block_size(bs as int),
    ensures
        1 <= r <= 11,
        pow2(r as nat) == bs,
{
    proof {
        lemma2_to64();
    }
    if bs == 2 {
        1
    } else if bs == 4 {
        2
    } else if bs == 8 {
        3
    } else if bs == 16 {
        4
    } else if bs == 32 {
        5
    } else if bs == 64 {
        6
    } else if bs == 128 {
        7
    } else if bs == 256 {
        8
    } else if bs == 512 {
        9
    } else if bs == 1024 {
        10
    } else {
        11
    }
}

/// `<hw|fw>_<target8>_v<version>_<full|seqdelta|ipdelta>_<mid8>.mota`
pub open spec fn package_name(ident: FwIdentView, codec: Codec, root: Seq<u8>) -> Seq<char> {
    (if ident.hw_id.len() == 0 {
        "fw"@
    } else {
        ident.hw_id
    }) + "_"@ + hex_fixed(ident.target_id as int, 8) + "_v"@ + version_text(ident.fw_version)
        + "_"@ + codec.spec_name_tag() + "_"@ + bytes_hex_upper(root) + ".mota"@
}

fn suggested_name(ident: &FwIdent, codec: Codec, root: &[u8; 4]) -> (s: String)
    ensures
        s@ == package_name(ident@, codec, root@),
{
    let mut s = if ident.hw_id.as_str().unicode_len() == 0 {
        String::from_str("fw")
    } else {
        ident.hw_id.clone()
    };
    s.append("_");
    push_hex_fixed(&mut s, ident.target_id as u64, 8);
    s.append("_v");
    s.append(version_str(ident.fw_version).as_str());
    s.append("_");
    s.append(codec.name_tag());
    s.append("_");
    s.append(hex_encode_upper(root).as_str());
    s.append(".mota");
    s
}

/// The in-place window of a build, where it has one.
pub open spec fn build_window(o: BuildOpts) -> Option<InplacePlan> {
    if build_codec(o) == Codec::DetoolsInplace {
        match inplace_plan(o.segment_size, o.inplace_memory, o.base->0@, target_image(o)) {
            Ok(plan) => Some(plan),
            Err(_) => None,
        }
    } else {
        None
    }
}

/// The length of the package of a payload.
pub open spec fn package_len(o: BuildOpts, payload: Seq<u8>) -> int {
    HEADER_LEN + MFL + 4 * block_count(payload.len() as int, o.block_size as int) + payload.len()
        + TRAILER_LEN
}

/// What keeps a payload from being packaged.
pub open spec fn payload_fault(o: BuildOpts, payload: Seq<u8>) -> Option<BuildFault> {
    let count = block_count(payload.len() as int, o.block_size as int);
    if !(1 <= count <= 0xFFFF) {
        Some(BuildFault::BlockCount(count))
    } else {
        match build_window(o) {
            None => None,
            Some(window) => match staging_fault(window, package_len(o, payload)) {
                None => None,
                Some(e) => Some(BuildFault::Plan(e)),
            },
        }
    }
}

/// What keeps a container from being built with the given patch.
pub open spec fn build_fault(o: BuildOpts, patch: Seq<u8>) -> Option<BuildFault> {
    if plan_fault(o) is Some {
        plan_fault(o)
    } else {
        payload_fault(o, build_payload(o, patch))
    }
}

/// The payload of a build: the image itself, or a delta's patch.
pub open spec fn build_payload(o: BuildOpts, patch: Seq<u8>) -> Seq<u8> {
    if o.base is None {
        target_image(o)
    } else {
        patch
    }
}

/// Whether `m` is the manifest of the package of a payload.
pub open spec fn is_package_manifest(o: BuildOpts, payload: Seq<u8>, m: Manifest) -> bool {
    let full = o.base is None;
    let leaves = leaves_of(payload, o.block_size as int);
    &&& m.format_ver == APP_FORMAT_VER
    &&& m.has_flag(MFLAG_FULL) == full
    &&& m.has_flag(MFLAG_SIGNED) == (o.sign_seed is Some)
    &&& m.flags & !APP_FLAGS_KNOWN == 0
    &&& m.hash_algo == HASH_ALGO_SHA256
    &&& m.target_id == resolved_ident(o).target_id
    &&& m.fw_version == resolved_ident(o).fw_version
    &&& m.image_size == target_image(o).len() % 0x1_0000_0000
    &&& m.payload_size == payload.len()
    &&& 1 <= m.block_size_log2 <= 11
    &&& m.spec_block_size() == o.block_size
    &&& m.block_count == leaves.len()
    &&& m.merkle_root@ == root_of(leaves)
    &&& m.image_hash@ == sha256_of(target_image(o))
    &&& codec_of_id(m.codec_id) == Some(build_codec(o))
    &&& m.hw_id@ == fixed_field(encode_utf8(resolved_ident(o).hw_id), HW_ID_LEN as nat)
    &&& m.base_hash@ == if full {
        Seq::new(8, |i: int| 0u8)
    } else {
        truncated_hash(endf_body(o.base->0@), 8)
    }
    &&& m.approval@ == APPROVAL_NONE@
    &&& match o.sign_seed {
        Some(seed) => m.signer@ == ed25519_public(seed@) && m.signature@ == ed25519_signature(
            seed@,
            encoded_head(m),
        ),
        None => m.signer@ == Seq::new(32, |i: int| 0u8) && m.signature@ == Seq::new(
            64,
            |i: int| 0u8,
        ),
    }
}

/// Whether a package is what a payload makes: its manifest, bytes, name and window.
pub open spec fn is_package(o: BuildOpts, payload: Seq<u8>, b: Built) -> bool {
    let leaves = leaves_of(payload, o.block_size as int);
    &&& is_package_manifest(o, payload, b.manifest)
    &&& b.bytes@ == container_bytes(b.manifest, joined(leaves), payload)
    &&& b.suggested_name@ == package_name(resolved_ident(o), build_codec(o), root_of(leaves))
    &&& b.inplace_memory == match build_window(o) {
        Some(window) => Some(window.memory),
        None => None,
    }
}

proof fn lemma_leaves(payload: Seq<u8>, block_size: int)
    requires
        block_size > 0,
        1 <= block_count(payload.len() as int, block_size),
    ensures
        leaves_of(payload, block_size).len() == block_count(payload.len() as int, block_size),
        joined(leaves_of(payload, block_size)).len() == 4 * block_count(
            payload.len() as int,
            block_size,
        ),
{
    lemma_joined_len(leaves_of(payload, block_size));
}

proof fn lemma_payload_bound(len: int, block_size: int)
    requires
        2 <= block_size <= 2048,
        block_count(len, block_size) <= 0xFFFF,
    ensures
        len <= 0xFFFF * 2048,
{
    let x = len + block_size - 1;
    lemma_fundamental_div_mod(x, block_size);
    let q = block_count(len, block_size);
    assert(block_size * q <= 2048 * 0xFFFF) by (nonlinear_arith)
        requires
            2 <= block_size <= 2048,
            q <= 0xFFFF,
    ;
}

/// A package is a valid container, from which the payload reads back.
pub proof fn law_package_is_container(o: BuildOpts, payload: Seq<u8>, b: Built)
    requires
        is_transport_block_size(o.block_size as int),
        1 <= block_count(payload.len() as int, o.block_size as int) <= 0xFFFF,
        payload.len() > 0,
        is_package(o, payload, b),
    ensures
        b.bytes@.len() == package_len(o, payload),
        is_container(b.bytes@, b.manifest),
        payload_of(b.bytes@, b.manifest.block_count as int, b.manifest.payload_size as int)
            == payload,
{
    let m = b.manifest;
    let leaves = leaves_of(payload, o.block_size as int);
    let count = block_count(payload.len() as int, o.block_size as int);
    lemma_leaves(payload, o.block_size as int);
    lemma_payload_bound(payload.len() as int, o.block_size as int);
    law_manifest_reads_back(m);
    law_container_reads_back(m, joined(leaves), payload, count);
    assert(m.implied_blocks() == count);
    assert(container_fault(b.bytes@, m) is None);
}

/// A package verifies where its signature, if it has one, is accepted under the signer's key.
proof fn lemma_package_verifies(o: BuildOpts, payload: Seq<u8>, b: Built)
    requires
        is_transport_block_size(o.block_size as int),
        1 <= block_count(payload.len() as int, o.block_size as int) <= 0xFFFF,
        payload.len() > 0,
        o.base is None ==> payload == target_image(o),
        is_package(o, payload, b),
        o.sign_seed is Some ==> ed25519_accepts(
            b.manifest.signer@,
            encoded_head(b.manifest),
            b.manifest.signature@,
        ),
    ensures
        problems_of(b.bytes@, b.manifest) == Seq::<Problem>::empty(),
{
    let m = b.manifest;
    let count = block_count(payload.len() as int, o.block_size as int);
    let leaves = leaves_of(payload, o.block_size as int);
    law_package_is_container(o, payload, b);
    lemma_leaves(payload, o.block_size as int);
    lemma_payload_bound(payload.len() as int, o.block_size as int);
    law_manifest_reads_back(m);
    law_container_reads_back(m, joined(leaves), payload, count);
    assert forall|p: Problem| !#[trigger] has_problem(b.bytes@, m, p) by {
        match p {
            Problem::Leaves => {},
            Problem::Root => {},
            Problem::ImageSize => {},
            Problem::ImageHash => {},
            Problem::Signature => {},
            Problem::Approval => {},
        }
    }
    lemma_none_present(b.bytes@, m, all_problems());
}

fn hw_field(hw_id: &str) -> (r: [u8; 32])
    ensures
        r@ == fixed_field(encode_utf8(hw_id@), HW_ID_LEN as nat),
{
    let raw = hw_id.as_bytes();
    let mut r: [u8; 32] = [0u8; 32];
    let mut i: usize = 0;
    while i < HW_ID_LEN
        invariant
            i <= HW_ID_LEN,
            r@.len() == HW_ID_LEN,
            raw@ == encode_utf8(hw_id@),
            forall|k: int|
                0 <= k < HW_ID_LEN ==> r@[k] == if k < i && k < raw@.len() {
                    raw@[k]
                } else {
                    0
                },
        decreases HW_ID_LEN - i,
    {
        if i < raw.len() {
            r[i] = raw[i];
        }
        i += 1;
    }
    assert(r@ =~= fixed_field(encode_utf8(hw_id@), HW_ID_LEN as nat));
    r
}

fn app_flags(full: bool, signed: bool) -> (r: u8)
    ensures
        (r & MFLAG_FULL != 0) == full,
        (r & MFLAG_SIGNED != 0) == signed,
        r & !APP_FLAGS_KNOWN == 0,
{
    assert(0u8 & 0x01 == 0 && 0u8 & 0x02 == 0 && 0u8 & !0x03u8 == 0 && 1u8 & 0x01 != 0 && 1u8 & 0x02
        == 0 && 1u8 & !0x03u8 == 0 && 2u8 & 0x01 == 0 && 2u8 & 0x02 != 0 && 2u8 & !0x03u8 == 0
        && 3u8 & 0x01 != 0 && 3u8 & 0x02 != 0 && 3u8 & !0x03u8 == 0) by (bit_vector);
    if full && signed {
        3
    } else if full {
        1
    } else if signed {
        2
    } else {
        0
    }
}

/// Packages a payload: hashes it, writes and signs the manifest, and assembles the container.
fn package_payload(o: &BuildOpts, plan: &BuildPlan, payload: &[u8]) -> (r: Result<
    Built,
    BuildError,
>)
    requires
        plan_fault(*o) is None,
        is_plan(*o, *plan),
        o.base is None ==> payload@ == target_image(*o),
    ensures
        match r {
            Ok(b) => {
                &&& payload_fault(*o, payload@) is None
                &&& is_package(*o, payload@, b)
                &&& is_container(b.bytes@, b.manifest)
                &&& problems_of(b.bytes@, b.manifest) == Seq::<Problem>::empty()
            },
            Err(e) => payload_fault(*o, payload@) == Some(e@),
        },
{
    let bs: usize = o.block_size as usize;
    let leaves = leaf_hashes(payload, bs);
    let count: usize = leaves.len();
    proof {
        assert(hash_views(leaves@).len() == count);
        lemma_block_count_nonneg(payload@.len() as int, bs as int);
    }
    if count < 1 || count > 0xFFFF {
        return Err(BuildError::BlockCount(count));
    }
    proof {
        lemma_leaves(payload@, bs as int);
        lemma_payload_bound(payload@.len() as int, bs as int);
        lemma_some_payload(payload@.len() as int, bs as int);
    }
    let (codec, base_hash, window): (Codec, [u8; 8], Option<InplacePlan>) = match &plan.delta {
        None => (Codec::Full, [0u8; 8], None),
        Some(d) => (d.codec, d.base_hash, d.inplace),
    };
    let total: usize = HEADER_LEN + MFL + 4 * count + payload.len() + TRAILER_LEN;
    assert(window == build_window(*o));
    if let Some(w) = window {
        match validate_staging_fit(w, total) {
            Ok(_) => {},
            Err(e) => {
                return Err(BuildError::Plan(e));
            },
        }
    }
    let merkle_root = root(leaves.as_slice());
    let mut m = Manifest {
        format_ver: APP_FORMAT_VER,
        flags: app_flags(plan.delta.is_none(), o.sign_seed.is_some()),
        hash_algo: HASH_ALGO_SHA256,
        target_id: plan.ident.target_id,
        fw_version: plan.ident.fw_version,
        image_size: low32(plan.image.len() as u64),
        payload_size: payload.len() as u32,
        block_size_log2: block_size_log2(o.block_size),
        merkle_root,
        image_hash: sha256(plan.image.as_slice()),
        codec_id: codec.id(),
        hw_id: hw_field(plan.ident.hw_id.as_str()),
        base_hash,
        signer: [0u8; 32],
        signature: [0u8; 64],
        approval: APPROVAL_NONE,
        block_count: count as u32,
    };
    proof {
        assert(m.signer@ =~= Seq::new(32, |i: int| 0u8));
        assert(m.signature@ =~= Seq::new(64, |i: int| 0u8));
        if o.base is None {
            assert(m.base_hash@ =~= Seq::new(8, |i: int| 0u8));
        }
    }
    if let Some(seed) = &o.sign_seed {
        m.signer = ed25519_public_from_seed(seed);
        let head = encode_head(&m);
        let ghost unsigned = m;
        m.signature = ed25519_sign(seed, head.as_slice());
        proof {
            reveal(encoded_head);
            assert(encoded_head(m) == encoded_head(unsigned));
        }
    }
    let table = leaf_bytes(&leaves);
    let bytes = encode_container(&m, table.as_slice(), payload);
    let name = suggested_name(&plan.ident, codec, &merkle_root);
    let built = Built {
        bytes,
        suggested_name: name,
        manifest: m,
        inplace_memory: match window {
            Some(w) => Some(w.memory),
            None => None,
        },
    };
    proof {
        assert(is_package(*o, payload@, built));
        law_package_is_container(*o, payload@, built);
        lemma_package_verifies(*o, payload@, built);
    }
    Ok(built)
}

proof fn lemma_block_count_nonneg(len: int, block_size: int)
    requires
        0 <= len,
        0 < block_size,
    ensures
        0 <= block_count(len, block_size),
{
    let x = len + block_size - 1;
    assert(0 <= x / block_size) by (nonlinear_arith)
        requires
            0 <= x,
            0 < block_size,
    ;
}

proof fn lemma_some_payload(len: int, block_size: int)
    requires
        0 <= len,
        0 < block_size,
        1 <= block_count(len, block_size),
    ensures
        1 <= len,
{
    if len == 0 {
        lemma_fundamental_div_mod_converse(block_size - 1, block_size, 0, block_size - 1);
    }
}

/// Builds a container. `patch` is the payload of a delta, made from what [`plan_build`] decided; a
/// full build does not look at it. What is built is a valid container, and verifying it finds
/// nothing wrong.
pub fn build(o: &BuildOpts, patch: &[u8]) -> (r: Result<Built, BuildError>)
    ensures
        match r {
            Ok(b) => {
                &&& build_fault(*o, patch@) is None
                &&& is_package(*o, build_payload(*o, patch@), b)
                &&& is_container(b.bytes@, b.manifest)
                &&& problems_of(b.bytes@, b.manifest) == Seq::<Problem>::empty()
                &&& b.manifest.fw_version == match o.fw_version {
                    Some(v) => v,
                    None => image_ident(o.fw@).fw_version,
                }
                &&& b.manifest.target_id == match o.target_id {
                    Some(t) => t,
                    None => image_ident(o.fw@).target_id,
                }
                &&& b.manifest.hw_id@ == fixed_field(
                    encode_utf8(
                        match o.hw_id {
                            Some(h) => h@,
                            None => image_ident(o.fw@).hw_id,
                        },
                    ),
                    32,
                )
            },
            Err(e) => build_fault(*o, patch@) == Some(e@),
        },
{
    let plan = match plan_build(o) {
        Err(e) => {
            return Err(e);
        },
        Ok(plan) => plan,
    };
    if plan.delta.is_none() {
        package_payload(o, &plan, plan.image.as_slice())
    } else {
        package_payload(o, &plan, patch)
    }
}

/// Building is deterministic, signature included: the options and the payload decide every byte of
/// the package and its name.
pub proof fn law_build_is_deterministic(o: BuildOpts, payload: Seq<u8>, a: Built, b: Built)
    requires
        is_package(o, payload, a),
        is_package(o, payload, b),
    ensures
        a.bytes@ == b.bytes@,
        a.suggested_name@ == b.suggested_name@,
        a.inplace_memory == b.inplace_memory,
{
    let m = a.manifest;
    let n = b.manifest;
    let (x, y) = (m.flags, n.flags);
    assert((x & 0x01u8 != 0) == (y & 0x01u8 != 0) && (x & 0x02u8 != 0) == (y & 0x02u8 != 0) && x
        & !0x03u8 == 0 && y & !0x03u8 == 0 ==> x == y) by (bit_vector);
    if m.block_size_log2 < n.block_size_log2 {
        lemma_pow2_strictly_increases(m.block_size_log2 as nat, n.block_size_log2 as nat);
    }
    if n.block_size_log2 < m.block_size_log2 {
        lemma_pow2_strictly_increases(n.block_size_log2 as nat, m.block_size_log2 as nat);
    }
    reveal(encoded_head);
    assert(encoded_head(m) == encoded_head(n));
    reveal(encoded_manifest);
    reveal(container_bytes);
}

/// The identity of a package: each explicit option wins over the firmware's own trailer, whatever
/// that holds, and each that is not given is the trailer's. They are the package's target, version
/// and hardware, and its name starts with them.
pub proof fn law_explicit_identity_wins(o: BuildOpts, payload: Seq<u8>, b: Built)
    requires
        is_package(o, payload, b),
    ensures
        ({
            let m = b.manifest;
            let own = image_ident(o.fw@);
            let hw = match o.hw_id {
                Some(h) => h@,
                None => own.hw_id,
            };
            &&& o.fw_version matches Some(v) ==> m.fw_version == v
            &&& o.fw_version is None ==> m.fw_version == own.fw_version
            &&& o.target_id matches Some(t) ==> m.target_id == t
            &&& o.target_id is None ==> m.target_id == own.target_id
            &&& forall|i: int|
                0 <= i < 32 ==> #[trigger] m.hw_id@[i] == if i < encode_utf8(hw).len() {
                    encode_utf8(hw)[i]
                } else {
                    0
                }
            &&& b.suggested_name@ == (if hw.len() == 0 {
                "fw"@
            } else {
                hw
            }) + "_"@ + hex_fixed(m.target_id as int, 8) + "_v"@ + version_text(m.fw_version) + "_"@
                + (if o.base is None {
                "full"@
            } else {
                match o.patch_type {
                    PatchType::Sequential => "seqdelta"@,
                    PatchType::InPlace => "ipdelta"@,
                }
            }) + "_"@ + bytes_hex_upper(m.merkle_root@) + ".mota"@
        }),
{
}

/// The image that a package describes: the firmware itself where it is trailed, else the firmware
/// with a trailer that reads back as the package's version and target.
pub proof fn law_package_image(o: BuildOpts, payload: Seq<u8>, b: Built)
    requires
        is_package(o, payload, b),
        o.fw@.len() + 56 <= u32::MAX,
    ensures
        ({
            let image = target_image(o);
            let m = b.manifest;
            &&& is_trailed(image)
            &&& is_trailed(o.fw@) ==> image == o.fw@
            &&& !is_trailed(o.fw@) ==> image.len() == o.fw@.len() + 56 && image.take(
                o.fw@.len() as int,
            ) == o.fw@ && image_ident(image).fw_version == m.fw_version && image_ident(
                image,
            ).target_id == m.target_id
            &&& m.image_size == image.len()
            &&& m.image_hash@ == sha256_of(image)
        }),
{
    let ident = resolved_ident(o);
    law_trailer_keeps_image(o.fw@, ident);
    law_ensure_endf_idempotent(o.fw@, ident, ident);
    if !is_trailed(o.fw@) {
        law_ident_reads_back(o.fw@, ident);
    }
}

/// What a package is made of, in numbers: format 2, flag bit 0 where it is full and bit 1 where it
/// is signed and no other, SHA-256, blocks of the size that was asked for, and the codec and the
/// base of a delta. A full package carries the image and names no base; a delta carries the patch and
/// names the running image by the start of its body's digest. Signer and signature are those of the
/// seed over the first 129 bytes of the manifest, or zeros. The approval is erased.
pub proof fn law_package_fields(o: BuildOpts, patch: Seq<u8>, b: Built)
    requires
        is_transport_block_size(o.block_size as int),
        build_fault(o, patch) is None,
        is_package(o, build_payload(o, patch), b),
    ensures
        ({
            let m = b.manifest;
            let payload = match o.base {
                None => target_image(o),
                Some(_) => patch,
            };
            let signed = o.sign_seed is Some;
            let start = 205 + 4 * m.block_count;
            &&& m.format_ver == 2
            &&& m.flags == (if o.base is None {
                1int
            } else {
                0
            }) + (if signed {
                2int
            } else {
                0
            })
            &&& m.hash_algo == 0x12
            &&& m.payload_size == payload.len()
            &&& pow2(m.block_size_log2 as nat) == o.block_size
            &&& (m.block_count - 1) * o.block_size < payload.len() <= m.block_count * o.block_size
            &&& m.codec_id == match (o.base, o.patch_type) {
                (None, _) => 0,
                (Some(_), PatchType::Sequential) => 1,
                (Some(_), PatchType::InPlace) => 2int,
            }
            &&& forall|i: int|
                0 <= i < 8 ==> #[trigger] m.base_hash@[i] == match o.base {
                    None => 0,
                    Some(base) => sha256_of(base@.take(base@.len() - 56))[i],
                }
            &&& m.approval@ == seq![0xFFu8, 0xFF, 0xFF, 0xFF]
            &&& o.sign_seed matches Some(seed) ==> m.signer@ == ed25519_public(seed@)
                && m.signature@ == ed25519_signature(seed@, b.bytes@.subrange(8, 137))
            &&& o.sign_seed is None ==> forall|i: int|
                0 <= i < 64 ==> #[trigger] m.signature@[i] == 0 && (i < 32 ==> m.signer@[i] == 0)
            &&& b.bytes@.len() == start + payload.len() + 5
            &&& b.bytes@.subrange(start, start + payload.len()) == payload
        }),
{
    let m = b.manifest;
    let payload = build_payload(o, patch);
    let (flags, bs) = (m.flags, o.block_size as int);
    assert(flags & !0x03u8 == 0 ==> flags == (if flags & 0x01u8 != 0 {
        1u8
    } else {
        0u8
    }) + (if flags & 0x02u8 != 0 {
        2u8
    } else {
        0u8
    })) by (bit_vector);
    lemma_some_payload(payload.len() as int, bs);
    law_package_is_container(o, payload, b);
    law_leaves_cover_payload(payload, bs, 0);
    assert(APPROVAL_NONE@ =~= seq![0xFFu8, 0xFF, 0xFF, 0xFF]);
    let start = 205 + 4 * m.block_count;
    assert(b.bytes@.subrange(start, start + payload.len()) =~= payload_of(
        b.bytes@,
        m.block_count as int,
        m.payload_size as int,
    ));
    law_manifest_reads_back(m);
    lemma_leaves(payload, bs);
    lemma_payload_bound(payload.len() as int, bs);
    law_container_reads_back(m, joined(leaves_of(payload, bs)), payload, m.block_count as int);
    assert(b.bytes@.subrange(8, 137) =~= manifest_bytes(b.bytes@).take(129));
    assert forall|i: int| 0 <= i < 8 implies #[trigger] m.base_hash@[i] == match o.base {
        None => 0,
        Some(base) => sha256_of(base@.take(base@.len() - 56))[i],
    } by {
        if let Some(base) = o.base {
            assert(endf_body(base@) == base@.take(base@.len() - 56));
            assert(m.base_hash@[i] == truncated_hash(endf_body(base@), 8)[i]);
        } else {
            assert(m.base_hash@[i] == Seq::new(8, |k: int| 0u8)[i]);
        }
    }
    if o.sign_seed is None {
        assert forall|i: int| 0 <= i < 64 implies #[trigger] m.signature@[i] == 0 && (i < 32
            ==> m.signer@[i] == 0) by {
            assert(m.signature@[i] == Seq::new(64, |k: int| 0u8)[i]);
            if i < 32 {
                assert(m.signer@[i] == Seq::new(32, |k: int| 0u8)[i]);
            }
        }
    }
}

/// When a package is built: the block size is a power of two from 2 to 2048 and the payload makes 1
/// to 65535 blocks of it. A delta also needs a base that carries a trailer, the same hardware in base
/// and target unless it is forced, and, where it is applied in place, a window and the room to stage
/// the package beside it. A full package is never refused for what only a delta needs.
pub proof fn law_build_decision(o: BuildOpts, patch: Seq<u8>)
    ensures
        build_fault(o, patch) is None <==> {
            let bs = o.block_size as int;
            let payload = match o.base {
                None => target_image(o),
                Some(_) => patch,
            };
            let count = (payload.len() + bs - 1) / bs;
            let hw = match o.hw_id {
                Some(h) => h@,
                None => image_ident(o.fw@).hw_id,
            };
            &&& exists|k: nat| 1 <= k <= 11 && bs == #[trigger] pow2(k)
            &&& 1 <= count <= 65535
            &&& o.base matches Some(base) ==> {
                let plan = inplace_plan(
                    o.segment_size,
                    o.inplace_memory,
                    base@,
                    target_image(o),
                );
                &&& is_trailed(base@)
                &&& o.force || image_ident(base@).hw_id == hw
                &&& o.patch_type is InPlace ==> plan is Ok && staging_fault(
                    plan->Ok_0,
                    205 + 4 * count + payload.len() + 5,
                ) is None
            }
        },
{
    lemma2_to64();
    assert(pow2(1) == 2 && pow2(2) == 4 && pow2(3) == 8 && pow2(4) == 16 && pow2(5) == 32 && pow2(6)
        == 64 && pow2(7) == 128 && pow2(8) == 256 && pow2(9) == 512 && pow2(10) == 1024 && pow2(11)
        == 2048);
    if exists|k: nat| 1 <= k <= 11 && o.block_size == #[trigger] pow2(k) {
        let k = choose|k: nat| 1 <= k <= 11 && o.block_size == #[trigger] pow2(k);
        assert(k == 1 || k == 2 || k == 3 || k == 4 || k == 5 || k == 6 || k == 7 || k == 8 || k
            == 9 || k == 10 || k == 11);
    }
}

/// Why a package is refused: a bad block size before all else, then a base without a trailer, then
/// hardware that differs, told with the hardware of base and target.
pub proof fn law_build_refusals(o: BuildOpts, patch: Seq<u8>)
    requires
        o.base is Some,
    ensures
        ({
            let base = o.base->0@;
            let hw = match o.hw_id {
                Some(h) => h@,
                None => image_ident(o.fw@).hw_id,
            };
            let size = is_transport_block_size(o.block_size as int);
            &&& !size ==> build_fault(o, patch) == Some(BuildFault::BlockSize)
            &&& size && !is_trailed(base) ==> build_fault(o, patch) == Some(
                BuildFault::BaseWithoutEndf,
            )
            &&& size && is_trailed(base) && !o.force && image_ident(base).hw_id != hw
                ==> build_fault(o, patch) == Some(
                BuildFault::Hardware(image_ident(base).hw_id, hw),
            )
        }),
{
}

/// A package's in-place window is the one that was planned for it, and only an in-place delta has one.
pub proof fn law_package_window(o: BuildOpts, payload: Seq<u8>, b: Built)
    requires
        plan_fault(o) is None,
        is_package(o, payload, b),
    ensures
        o.base is None || o.patch_type is Sequential ==> b.inplace_memory is None,
        o.base is Some && o.patch_type is InPlace ==> b.inplace_memory == Some(
            inplace_plan(
                o.segment_size,
                o.inplace_memory,
                o.base->0@,
                target_image(o),
            )->Ok_0.memory,
        ),
{
}

/// What a plan holds: the identity and the image that the package will describe, and for a delta the
/// running image that the patch applies to, byte for byte, with the start of its body's digest, the
/// codec of the patch type, and a window for an in-place one alone.
pub proof fn law_plan_contents(o: BuildOpts, plan: BuildPlan)
    requires
        is_plan(o, plan),
    ensures
        plan.image@ == target_image(o),
        plan.delta is Some <==> o.base is Some,
        plan.delta matches Some(d) ==> {
            let base = o.base->0@;
            &&& d.base_image@ == base
            &&& forall|i: int|
                0 <= i < 8 ==> #[trigger] d.base_hash@[i] == sha256_of(base.take(base.len() - 56))[i]
            &&& o.patch_type is Sequential ==> d.codec == Codec::DetoolsSequential && d.inplace is None
            &&& o.patch_type is InPlace ==> d.codec == Codec::DetoolsInplace && d.inplace is Some
                && inplace_plan(o.segment_size, o.inplace_memory, base, target_image(o)) == Ok::<
                InplacePlan,
                PlanError,
            >(d.inplace->0)
        },
{
    if let Some(d) = plan.delta {
        let base = o.base->0@;
        assert(endf_body(base) == base.take(base.len() - 56));
        assert forall|i: int| 0 <= i < 8 implies #[trigger] d.base_hash@[i] == sha256_of(
            base.take(base.len() - 56),
        )[i] by {
            assert(d.base_hash@[i] == truncated_hash(endf_body(base), 8)[i]);
        }
    }
}

} // verus!
