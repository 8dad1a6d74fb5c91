//! Building the signed package of a qualified board's bootloader.
use vstd::arithmetic::power2::lemma2_to64;
use vstd::prelude::*;
use vstd::string::*;

use crate::assemble::{
    container_bytes, encode_container, encode_head, encoded_head, law_container_reads_back,
    law_manifest_reads_back,
};
use crate::boards::{
    law_board_is_qualified, law_identities_are_distinct, BootloaderBoard, BOOTLOADER_BOARDS,
};
use crate::bootloader::{
    crc32_of, crc32_with_zeroed, embedded_identity, hw_id_of, hw_id_text, image_validation,
    law_accepted_image_profile, law_hw_id_is_canonical, law_image_accepted, parse_identity,
    target_id_of,
    validate_bootloader_image, zeroed, BootloaderError, BootloaderIdentity, IdentityView,
    IMAGE_SIZE,
};
use crate::bytes::le32_at;
use crate::container::{container_fault, is_container, manifest_bytes, payload_of, BOOT_FLAGS};
use crate::crypto::{
    ed25519_accepts, ed25519_public, ed25519_public_from_seed, ed25519_sign, ed25519_signature,
    sha256, sha256_of,
};
use crate::format::{APPROVAL_NONE, BOOTLOADER_BLOCK_SIZE, BOOT_FORMAT_VER, HASH_ALGO_SHA256};
use crate::manifest::Manifest;
use crate::merkle::{leaf_hashes, leaves_of, root, root_of};
use crate::package::Built;
use crate::text::{bytes_hex_upper, dec, hex_encode_upper, hex_fixed, push_dec, push_hex_fixed};
use crate::transport::block_count;
use crate::verify::{
    all_problems, has_problem, joined, leaf_bytes, lemma_joined_len, lemma_none_present,
    problems_of, Problem,
};
use crate::version::{
    first_fault, pack_version, packed_parts, split_dots, version_str, version_text, VersionError,
};

verus! {

/// The length of every bootloader package.
pub const PACKAGE_SIZE: usize = 41_330;

/// Why a bootloader package cannot be built.
#[derive(Clone, Copy, Debug, PartialEq, Eq, Structural)]
pub enum BootPackageError {
    /// The board id that the image embeds and that of the selected board.
    Board(u32, u32),
    Image(BootloaderError),
    /// The storage profile of the image and the one that was selected.
    Storage(u8, u8),
}

impl BootPackageError {
    /// The message of the error.
    pub open spec fn message(self) -> Seq<char> {
        match self {
            BootPackageError::Board(found, wanted) => "embedded board_id 0x"@ + hex_fixed(
                found as int,
                8,
            ) + " does not match the selected board 0x"@ + hex_fixed(wanted as int, 8),
            BootPackageError::Image(e) => e.message(),
            BootPackageError::Storage(found, wanted) => "bootloader storage profile 0x"@
                + hex_fixed(found as int, 2) + " does not match the selected profile 0x"@
                + hex_fixed(wanted as int, 2),
        }
    }

    /// Writes the error's message.
    pub fn to_string(&self) -> (s: String)
        ensures
            s@ == self.message(),
    {
        match self {
            BootPackageError::Board(found, wanted) => {
                let mut s = String::from_str("embedded board_id 0x");
                push_hex_fixed(&mut s, *found as u64, 8);
                s.append(" does not match the selected board 0x");
                push_hex_fixed(&mut s, *wanted as u64, 8);
                s
            },
            BootPackageError::Image(e) => e.to_string(),
            BootPackageError::Storage(found, wanted) => {
                let mut s = String::from_str("bootloader storage profile 0x");
                push_hex_fixed(&mut s, *found as u64, 2);
                s.append(" does not match the selected profile 0x");
                push_hex_fixed(&mut s, *wanted as u64, 2);
                s
            },
        }
    }
}

/// The CRC-32 of an image with the four bytes of its CRC field taken as zero.
pub fn bootloader_image_crc32(image: &[u8], crc_offset: usize) -> (r: u32)
    requires
        crc_offset + 4 <= usize::MAX,
    ensures
        r == crc32_of(zeroed(image@, crc_offset as int, crc_offset + 4)),
{
    crc32_with_zeroed(image, crc_offset, crc_offset + 4)
}

/// A bootloader version for people: the last byte is the channel, where 255 is the stable one.
pub open spec fn bootloader_version_text(v: u32) -> Seq<char> {
    if v % 0x100 == 0xFF {
        version_text(v)
    } else {
        version_text(v) + "-preview."@ + dec(v as int % 0x100)
    }
}

/// Renders a bootloader version as `"major.minor.patch"` or `"major.minor.patch-preview.channel"`.
pub fn bootloader_version_str(v: u32) -> (s: String)
    ensures
        s@ == bootloader_version_text(v),
{
    let mut s = version_str(v);
    if v % 0x100 != 0xFF {
        s.append("-preview.");
        push_dec(&mut s, (v % 0x100) as u64);
    }
    s
}

/// Why an asserted version does not hold.
#[derive(Clone, Debug, PartialEq, Eq)]
pub enum AssertionError {
    Version(VersionError),
    /// The asserted and the embedded version.
    Mismatch(u32, u32),
}

impl AssertionError {
    /// The message of the error.
    pub open spec fn message(self) -> Seq<char> {
        match self {
            AssertionError::Version(e) => e.message(),
            AssertionError::Mismatch(asserted, embedded) => "--fw-version "@
                + bootloader_version_text(asserted)
                + " does not match embedded bootloader version "@ + bootloader_version_text(
                embedded,
            ),
        }
    }

    /// Writes the error's message.
    pub fn to_string(&self) -> (s: String)
        ensures
            s@ == self.message(),
    {
        match self {
            AssertionError::Version(e) => e.to_string(),
            AssertionError::Mismatch(asserted, embedded) => {
                let mut s = String::from_str("--fw-version ");
                s.append(bootloader_version_str(*asserted).as_str());
                s.append(" does not match embedded bootloader version ");
                s.append(bootloader_version_str(*embedded).as_str());
                s
            },
        }
    }
}

/// Checks a version that the user asserts against the one that an image embeds, which it never
/// overrides.
pub fn check_asserted_version(asserted: &str, embedded: u32) -> (r: Result<(), AssertionError>)
    ensures
        ({
            let parts = split_dots(asserted@);
            match r {
                Ok(_) => first_fault(parts, 0) is None && packed_parts(parts) == embedded,
                Err(AssertionError::Version(e)) => first_fault(parts, 0) == Some(e.fault())
                    && e.text() == asserted@,
                Err(AssertionError::Mismatch(a, b)) => first_fault(parts, 0) is None
                    && packed_parts(parts) == a && b == embedded && a != b,
            }
        }),
{
    match pack_version(asserted) {
        Err(e) => Err(AssertionError::Version(e)),
        Ok(v) => if v == embedded {
            Ok(())
        } else {
            Err(AssertionError::Mismatch(v, embedded))
        },
    }
}

/// The version that an image embeds; zero where it embeds no identity.
pub open spec fn embedded_version(image: Seq<u8>) -> u32 {
    match embedded_identity(image) {
        Ok(id) => id.boot_version,
        Err(_) => 0,
    }
}

/// What validating an image for a board and a storage profile gives.
pub open spec fn profile_validation(
    image: Seq<u8>,
    board: BootloaderBoard,
    storage: u8,
) -> Result<IdentityView, BootPackageError> {
    if image.len() == IMAGE_SIZE && embedded_identity(image) is Ok && embedded_identity(
        image,
    )->Ok_0.board_id != board.spec_board_id() {
        Err(
            BootPackageError::Board(
                embedded_identity(image)->Ok_0.board_id,
                board.spec_board_id(),
            ),
        )
    } else {
        match image_validation(
            image,
            target_id_of(board.spec_board_id(), board.spec_device_name()),
            hw_id_of(board.spec_board_id(), board.spec_device_name()),
            embedded_version(image),
        ) {
            Err(e) => Err(BootPackageError::Image(e)),
            Ok(id) => if id.storage_flags != storage {
                Err(BootPackageError::Storage(id.storage_flags, storage))
            } else {
                Ok(id)
            },
        }
    }
}

/// A validation result with the identity taken by its view.
pub open spec fn profile_result(r: Result<BootloaderIdentity, BootPackageError>) -> Result<
    IdentityView,
    BootPackageError,
> {
    match r {
        Ok(id) => Ok(id@),
        Err(e) => Err(e),
    }
}

/// Validates an image for the selected board and storage profile.
pub fn validate_bootloader_image_for_profile(
    image: &[u8],
    board: BootloaderBoard,
    storage_profile: u8,
) -> (r: Result<BootloaderIdentity, BootPackageError>)
    ensures
        profile_result(r) == profile_validation(image@, board, storage_profile),
{
    let version: u32 = if image.len() == IMAGE_SIZE {
        match parse_identity(image) {
            Ok(id) => {
                if id.board_id != board.board_id() {
                    return Err(BootPackageError::Board(id.board_id, board.board_id()));
                }
                id.boot_version
            },
            Err(_) => 0,
        }
    } else {
        0
    };
    let hw = board.hw_id();
    match validate_bootloader_image(image, board.target_id(), &hw, version) {
        Err(e) => {
            return Err(BootPackageError::Image(e));
        },
        Ok(id) => {
            if id.storage_flags != storage_profile {
                Err(BootPackageError::Storage(id.storage_flags, storage_profile))
            } else {
                Ok(id)
            }
        },
    }
}

/// An image that is accepted for a board embeds that board's identity and was built for its
/// platform, with the selected storage profile.
pub proof fn law_profile_binds_board(image: Seq<u8>, board: BootloaderBoard, storage: u8)
    requires
        profile_validation(image, board, storage) is Ok,
    ensures
        ({
            let id = profile_validation(image, board, storage)->Ok_0;
            let c = board.spec_compatibility();
            &&& id.board_id == board.spec_board_id()
            &&& id.device_name == board.spec_device_name()
            &&& id.storage_flags == storage
            &&& id.softdevice_family == c.softdevice_family
            &&& id.softdevice_fwid == c.softdevice_fwid
            &&& id.app_base == c.app_base
            &&& id.layout_abi == c.layout_abi
        }),
{
    let target = target_id_of(board.spec_board_id(), board.spec_device_name());
    let hw = hw_id_of(board.spec_board_id(), board.spec_device_name());
    let id = profile_validation(image, board, storage)->Ok_0;
    law_board_is_qualified(board);
    law_accepted_image_profile(image, target, hw, embedded_version(image));
    law_hw_id_is_canonical(
        board.spec_board_id(),
        board.spec_device_name(),
        id.board_id,
        id.device_name,
    );
}

/// Whether two boards of the inventory are offered under the same target id.
pub open spec fn targets_collide() -> bool {
    exists|i: int, j: int|
        0 <= i < j < 16 && #[trigger] board_target(i) == #[trigger] board_target(j)
}

/// The target id of a board of the inventory.
pub open spec fn board_target(i: int) -> u32 {
    target_id_of(
        BOOTLOADER_BOARDS@[i].spec_board_id(),
        BOOTLOADER_BOARDS@[i].spec_device_name(),
    )
}

/// Checks that no two boards of the inventory are offered under the same target id; otherwise gives
/// the id that they share.
pub fn validate_bootloader_inventory() -> (r: Result<(), u32>)
    ensures
        match r {
            Ok(_) => !targets_collide(),
            Err(id) => exists|i: int, j: int|
                0 <= i < j < 16 && #[trigger] board_target(i) == id && #[trigger] board_target(j)
                    == id,
        },
{
    let boards = BOOTLOADER_BOARDS;
    let mut j: usize = 0;
    while j < 16
        invariant
            j <= 16,
            boards == BOOTLOADER_BOARDS,
            forall|a: int, b: int|
                0 <= a < b < j ==> #[trigger] board_target(a) != #[trigger] board_target(b),
        decreases 16 - j,
    {
        let id: u32 = boards[j].target_id();
        let mut i: usize = 0;
        while i < j
            invariant
                i <= j < 16,
                boards == BOOTLOADER_BOARDS,
                id == board_target(j as int),
                forall|a: int| 0 <= a < i ==> #[trigger] board_target(a) != id,
            decreases j - i,
        {
            if boards[i].target_id() == id {
                assert(board_target(i as int) == id && board_target(j as int) == id);
                return Err(id);
            }
            i += 1;
        }
        j += 1;
    }
    Ok(())
}

/// What to package.
pub struct BootloaderBuildOpts {
    pub image: Vec<u8>,
    pub board: BootloaderBoard,
    pub storage_profile: u8,
    pub sign_seed: [u8; 32],
}

/// `<hw>_<target8>_v<version>_bootloader_<mid8>.mota`
pub open spec fn boot_package_name(board: BootloaderBoard, version: u32, root: Seq<u8>) -> Seq<
    char,
> {
    hw_id_text(board.spec_board_id(), board.spec_device_name()) + "_"@ + hex_fixed(
        target_id_of(board.spec_board_id(), board.spec_device_name()) as int,
        8,
    ) + "_v"@ + bootloader_version_text(version) + "_bootloader_"@ + bytes_hex_upper(root)
        + ".mota"@
}

/// Whether `m` is the manifest of a bootloader package.
pub open spec fn is_boot_manifest(o: BootloaderBuildOpts, m: Manifest) -> bool {
    let leaves = leaves_of(o.image@, BOOTLOADER_BLOCK_SIZE as int);
    &&& m.format_ver == BOOT_FORMAT_VER
    &&& m.flags == BOOT_FLAGS
    &&& m.hash_algo == HASH_ALGO_SHA256
    &&& m.target_id == target_id_of(o.board.spec_board_id(), o.board.spec_device_name())
    &&& m.fw_version == embedded_version(o.image@)
    &&& m.image_size == IMAGE_SIZE
    &&& m.payload_size == IMAGE_SIZE
    &&& m.block_size_log2 == 10
    &&& m.block_count == 40
    &&& m.merkle_root@ == root_of(leaves)
    &&& m.image_hash@ == sha256_of(o.image@)
    &&& m.codec_id == 0
    &&& m.hw_id@ == hw_id_of(o.board.spec_board_id(), o.board.spec_device_name())
    &&& m.base_hash@ == Seq::new(8, |i: int| 0u8)
    &&& m.signer@ == ed25519_public(o.sign_seed@)
    &&& m.signature@ == ed25519_signature(o.sign_seed@, encoded_head(m))
    &&& m.approval@ == APPROVAL_NONE@
}

/// Whether a package is that of a bootloader.
pub open spec fn is_boot_package(o: BootloaderBuildOpts, b: Built) -> bool {
    let leaves = leaves_of(o.image@, BOOTLOADER_BLOCK_SIZE as int);
    &&& is_boot_manifest(o, b.manifest)
    &&& b.bytes@ == container_bytes(b.manifest, joined(leaves), o.image@)
    &&& b.suggested_name@ == boot_package_name(
        o.board,
        embedded_version(o.image@),
        root_of(leaves),
    )
    &&& b.inplace_memory is None
}

/// A bootloader package has its one length, is a valid container, and its image reads back.
pub proof fn law_boot_package_is_container(o: BootloaderBuildOpts, b: Built)
    requires
        profile_validation(o.image@, o.board, o.storage_profile) is Ok,
        is_boot_package(o, b),
    ensures
        b.bytes@.len() == PACKAGE_SIZE,
        is_container(b.bytes@, b.manifest),
        payload_of(b.bytes@, 40, IMAGE_SIZE as int) == o.image@,
{
    let m = b.manifest;
    let leaves = leaves_of(o.image@, BOOTLOADER_BLOCK_SIZE as int);
    lemma2_to64();
    assert(block_count(IMAGE_SIZE as int, BOOTLOADER_BLOCK_SIZE as int) == 40);
    lemma_joined_len(leaves);
    law_manifest_reads_back(m);
    law_container_reads_back(m, joined(leaves), o.image@, 40);
    assert(m.implied_blocks() == 40);
    assert(container_fault(b.bytes@, m) is None);
}

proof fn lemma_boot_package_verifies(o: BootloaderBuildOpts, b: Built)
    requires
        profile_validation(o.image@, o.board, o.storage_profile) is Ok,
        is_boot_package(o, b),
        ed25519_accepts(
            b.manifest.signer@,
            encoded_head(b.manifest),
            b.manifest.signature@,
        ),
    ensures
        problems_of(b.bytes@, b.manifest) == Seq::<Problem>::empty(),
{
    let m = b.manifest;
    let leaves = leaves_of(o.image@, BOOTLOADER_BLOCK_SIZE as int);
    law_boot_package_is_container(o, b);
    lemma2_to64();
    lemma_joined_len(leaves);
    law_manifest_reads_back(m);
    law_container_reads_back(m, joined(leaves), o.image@, 40);
    assert forall|p: Problem| !#[trigger] has_problem(b.bytes@, m, p) by {
        match p {
            Problem::Leaves => {},
            Problem::Root => {},
            Problem::ImageSize => {},
            Problem::ImageHash => {},
            Problem::Signature => {},
            Problem::Approval => {},
        }
    }
    lemma_none_present(b.bytes@, m, all_problems());
}

/// Builds the signed package of a bootloader image. What is built is a valid container, and
/// verifying it finds nothing wrong.
pub fn build_bootloader(o: &BootloaderBuildOpts) -> (r: Result<Built, BootPackageError>)
    ensures
        match r {
            Ok(b) => {
                &&& profile_validation(o.image@, o.board, o.storage_profile) is Ok
                &&& is_boot_package(*o, b)
                &&& b.bytes@.len() == PACKAGE_SIZE
                &&& is_container(b.bytes@, b.manifest)
                &&& problems_of(b.bytes@, b.manifest) == Seq::<Problem>::empty()
            },
            Err(e) => profile_validation(o.image@, o.board, o.storage_profile) == Err::<
                IdentityView,
                BootPackageError,
            >(e),
        },
{
    let image = o.image.as_slice();
    let id = match validate_bootloader_image_for_profile(image, o.board, o.storage_profile) {
        Err(e) => {
            return Err(e);
        },
        Ok(id) => id,
    };
    let leaves = leaf_hashes(image, BOOTLOADER_BLOCK_SIZE as usize);
    let merkle_root = root(leaves.as_slice());
    let mut m = Manifest {
        format_ver: BOOT_FORMAT_VER,
        flags: BOOT_FLAGS,
        hash_algo: HASH_ALGO_SHA256,
        target_id: o.board.target_id(),
        fw_version: id.boot_version,
        image_size: IMAGE_SIZE as u32,
        payload_size: IMAGE_SIZE as u32,
        block_size_log2: 10,
        merkle_root,
        image_hash: sha256(image),
        codec_id: 0,
        hw_id: o.board.hw_id(),
        base_hash: [0u8; 8],
        signer: ed25519_public_from_seed(&o.sign_seed),
        signature: [0u8; 64],
        approval: APPROVAL_NONE,
        block_count: 40,
    };
    assert(m.base_hash@ =~= Seq::new(8, |i: int| 0u8));
    let head = encode_head(&m);
    let ghost unsigned = m;
    m.signature = ed25519_sign(&o.sign_seed, head.as_slice());
    proof {
        reveal(encoded_head);
        assert(encoded_head(m) == encoded_head(unsigned));
        assert(block_count(IMAGE_SIZE as int, BOOTLOADER_BLOCK_SIZE as int) == 40);
        lemma_joined_len(leaves_of(o.image@, BOOTLOADER_BLOCK_SIZE as int));
    }
    let table = leaf_bytes(&leaves);
    let bytes = encode_container(&m, table.as_slice(), image);
    let mut name = o.board.hw_id_str();
    name.append("_");
    push_hex_fixed(&mut name, m.target_id as u64, 8);
    name.append("_v");
    name.append(bootloader_version_str(m.fw_version).as_str());
    name.append("_bootloader_");
    name.append(hex_encode_upper(&merkle_root).as_str());
    name.append(".mota");
    let built = Built { bytes, suggested_name: name, manifest: m, inplace_memory: None };
    proof {
        assert(is_boot_package(*o, built));
        law_boot_package_is_container(*o, built);
        lemma_boot_package_verifies(*o, built);
    }
    Ok(built)
}

/// The text of a bootloader version: the lowest byte is the channel, shown as a preview unless it is
/// 255.
pub proof fn law_bootloader_version_text(v: u32)
    ensures
        v % 0x100 == 255 ==> bootloader_version_text(v) == version_text(v),
        v % 0x100 != 255 ==> bootloader_version_text(v) == version_text(v) + "-preview."@ + dec(
            v as int % 0x100,
        ),
{
}

/// An image is accepted for a board and a storage profile exactly where it is accepted under the
/// board's target id, hardware id and the version at 0x9FEC, and its capability marker names that
/// profile.
pub proof fn law_profile_decision(image: Seq<u8>, board: BootloaderBoard, storage: u8)
    ensures
        profile_validation(image, board, storage) is Ok <==> (image_validation(
            image,
            target_id_of(board.spec_board_id(), board.spec_device_name()),
            hw_id_of(board.spec_board_id(), board.spec_device_name()),
            le32_at(image, 0x9FEC),
        ) matches Ok(id) && id.storage_flags == storage),
{
    let target = target_id_of(board.spec_board_id(), board.spec_device_name());
    let hw = hw_id_of(board.spec_board_id(), board.spec_device_name());
    let version = le32_at(image, 0x9FEC);
    law_board_is_qualified(board);
    if image_validation(image, target, hw, version) is Ok {
        let id = image_validation(image, target, hw, version)->Ok_0;
        law_accepted_image_profile(image, target, hw, version);
        law_hw_id_is_canonical(
            board.spec_board_id(),
            board.spec_device_name(),
            id.board_id,
            id.device_name,
        );
        assert(embedded_version(image) == version);
    }
    if profile_validation(image, board, storage) is Ok {
        law_image_accepted(image, target, hw, embedded_version(image));
        assert(embedded_version(image) == version);
    }
}

/// What a bootloader package is made of, in numbers: format 3 with flags 7, SHA-256, 40 blocks of
/// 1024 bytes, the full codec and no base. It carries the image as its payload, its identity is the
/// board's, its version the one at 0x9FEC of the image, and it is signed with the seed over the first
/// 129 bytes of the manifest.
pub proof fn law_boot_package_fields(o: BootloaderBuildOpts, b: Built)
    requires
        profile_validation(o.image@, o.board, o.storage_profile) is Ok,
        is_boot_package(o, b),
    ensures
        ({
            let m = b.manifest;
            &&& m.format_ver == 3 && m.flags == 7 && m.hash_algo == 0x12
            &&& m.target_id == target_id_of(o.board.spec_board_id(), o.board.spec_device_name())
            &&& m.hw_id@ == hw_id_of(o.board.spec_board_id(), o.board.spec_device_name())
            &&& m.fw_version == le32_at(o.image@, 0x9FEC)
            &&& m.image_size == 40960 && m.payload_size == 40960
            &&& m.block_size_log2 == 10 && m.block_count == 40
            &&& m.codec_id == 0
            &&& m.base_hash@ == seq![0u8, 0, 0, 0, 0, 0, 0, 0]
            &&& m.image_hash@ == sha256_of(o.image@)
            &&& m.approval@ == seq![0xFFu8, 0xFF, 0xFF, 0xFF]
            &&& m.signer@ == ed25519_public(o.sign_seed@)
            &&& m.signature@ == ed25519_signature(o.sign_seed@, b.bytes@.subrange(8, 137))
            &&& b.bytes@.len() == 41330
            &&& b.bytes@.subrange(365, 41325) == o.image@
            &&& b.inplace_memory is None
            &&& b.suggested_name@ == hw_id_text(
                o.board.spec_board_id(),
                o.board.spec_device_name(),
            ) + "_"@ + hex_fixed(m.target_id as int, 8) + "_v"@ + bootloader_version_text(
                m.fw_version,
            ) + "_bootloader_"@ + bytes_hex_upper(m.merkle_root@) + ".mota"@
        }),
{
    let m = b.manifest;
    let target = target_id_of(o.board.spec_board_id(), o.board.spec_device_name());
    let hw = hw_id_of(o.board.spec_board_id(), o.board.spec_device_name());
    let leaves = leaves_of(o.image@, BOOTLOADER_BLOCK_SIZE as int);
    law_image_accepted(o.image@, target, hw, embedded_version(o.image@));
    law_boot_package_is_container(o, b);
    assert(block_count(IMAGE_SIZE as int, BOOTLOADER_BLOCK_SIZE as int) == 40);
    lemma_joined_len(leaves);
    law_manifest_reads_back(m);
    law_container_reads_back(m, joined(leaves), o.image@, 40);
    assert(b.bytes@.subrange(8, 137) =~= manifest_bytes(b.bytes@).take(129));
    assert(b.bytes@.subrange(365, 41325) =~= payload_of(b.bytes@, 40, 40960));
    assert(APPROVAL_NONE@ =~= seq![0xFFu8, 0xFF, 0xFF, 0xFF]);
    assert(Seq::new(8, |i: int| 0u8) =~= seq![0u8, 0, 0, 0, 0, 0, 0, 0]);
}

/// A package is refused for the board or storage profile that was selected: an image that is accepted
/// for one board and profile is refused for a board with another id, told with both ids, and for
/// another profile, told with both profiles.
pub proof fn law_wrong_selection_refused(
    image: Seq<u8>,
    board: BootloaderBoard,
    storage: u8,
    other_board: BootloaderBoard,
    other_storage: u8,
)
    requires
        profile_validation(image, board, storage) is Ok,
    ensures
        other_storage != storage ==> profile_validation(image, board, other_storage) == Err::<
            IdentityView,
            BootPackageError,
        >(BootPackageError::Storage(storage, other_storage)),
        other_board.spec_board_id() != board.spec_board_id() ==> profile_validation(
            image,
            other_board,
            other_storage,
        ) == Err::<IdentityView, BootPackageError>(
            BootPackageError::Board(board.spec_board_id(), other_board.spec_board_id()),
        ),
        other_board != board ==> profile_validation(image, other_board, other_storage) is Err,
{
    law_profile_binds_board(image, board, storage);
    if profile_validation(image, other_board, other_storage) is Ok {
        law_profile_binds_board(image, other_board, other_storage);
        let a = profile_validation(image, board, storage)->Ok_0;
        let b = profile_validation(image, other_board, other_storage)->Ok_0;
        assert(a.board_id == b.board_id && a.device_name == b.device_name);
        law_identities_are_distinct(board, other_board);
    }
}

} // verus!
