//! What the tool says of a container: its kind, its labels, and the lines of its reports.
use vstd::arithmetic::power2::pow2;
use vstd::prelude::*;
use vstd::slice::slice_subrange;
use vstd::string::*;

use crate::boards::{law_identities_are_distinct, BootloaderBoard};
use crate::bootloader::{
    image_validation, validate_bootloader_image, BootloaderIdentity, IdentityView,
};
use crate::bootpack::{bootloader_version_str, bootloader_version_text};
use crate::bytes::{bytes_eq, window};
use crate::container::{
    is_container, lemma_container_geometry, parses_to, payload_of, ContainerError,
};
use crate::format::{cstr_text, APPROVAL_APPROVED, MFLAG_BOOTLOADER, MFLAG_FULL, MFLAG_SIGNED};
use crate::manifest::{codec_of_id, Codec, Manifest};
use crate::text::{
    bool_str, bool_text, bytes_hex_upper, dec, hex_encode_upper, hex_fixed, hex_fixed_lower,
    hex_lower, hex_upper, push_dec, push_hex, push_hex_fixed, push_hex_fixed_lower, push_hex_lower,
};
use crate::transport::DeflateTransportSize;
use crate::verify::{messages, problems_of, texts, verify};
use crate::version::{version_str, version_text};

verus! {

/// The kind of a package.
pub open spec fn kind_of(m: Manifest) -> Seq<char> {
    let codec = codec_of_id(m.codec_id);
    if m.has_flag(MFLAG_BOOTLOADER) {
        "bootloader"@
    } else if m.has_flag(MFLAG_FULL) && (codec is None || codec == Some(Codec::Full)) {
        "full"@
    } else if codec == Some(Codec::DetoolsInplace) {
        "in-place delta"@
    } else {
        "sequential delta"@
    }
}

/// Names the kind of a package.
pub fn kind_label(m: &Manifest) -> (r: &'static str)
    ensures
        r@ == kind_of(*m),
{
    if m.is_bootloader() {
        return "bootloader";
    }
    match m.codec() {
        None => if m.is_full() {
            "full"
        } else {
            "sequential delta"
        },
        Some(Codec::Full) => if m.is_full() {
            "full"
        } else {
            "sequential delta"
        },
        Some(Codec::DetoolsInplace) => "in-place delta",
        Some(Codec::DetoolsSequential) => "sequential delta",
    }
}

/// The version of a package for people.
pub open spec fn package_version_text(m: Manifest) -> Seq<char> {
    if m.has_flag(MFLAG_BOOTLOADER) {
        bootloader_version_text(m.fw_version)
    } else {
        version_text(m.fw_version)
    }
}

/// Renders the version of a package.
pub fn package_version_str(m: &Manifest) -> (r: String)
    ensures
        r@ == package_version_text(*m),
{
    if m.is_bootloader() {
        bootloader_version_str(m.fw_version)
    } else {
        version_str(m.fw_version)
    }
}

/// What a bootloader package's payload embeds, where it lies in the container and is valid.
pub open spec fn package_identity(m: Manifest, blob: Seq<u8>) -> Option<IdentityView> {
    if m.spec_payload_off() + m.payload_size > blob.len() {
        None
    } else {
        match image_validation(
            payload_of(blob, m.block_count as int, m.payload_size as int),
            m.target_id,
            m.hw_id@,
            m.fw_version,
        ) {
            Ok(id) => Some(id),
            Err(_) => None,
        }
    }
}

/// The name of the board profile that an identity belongs to.
pub open spec fn profile_label(id: IdentityView, otherwise: Seq<char>, label: Seq<char>) -> bool {
    if exists|b: BootloaderBoard| is_profile(id, b) {
        exists|b: BootloaderBoard| #[trigger] is_profile(id, b) && b.spec_profile_name(
            id.storage_flags,
        ) == Some(label)
    } else {
        label == otherwise
    }
}

/// Whether a board has the identity, with the identity's storage profile.
pub open spec fn is_profile(id: IdentityView, b: BootloaderBoard) -> bool {
    b.spec_board_id() == id.board_id && b.spec_device_name() == id.device_name
        && b.spec_profile_name(id.storage_flags) is Some
}

/// Names the board profile of an identity.
fn profile_of(id: &BootloaderIdentity, otherwise: &'static str) -> (r: &'static str)
    ensures
        profile_label(id@, otherwise@, r@),
{
    match BootloaderBoard::from_identity(id.board_id, id.device_name.as_str()) {
        None => otherwise,
        Some(b) => match b.profile_name(id.storage_flags) {
            None => {
                proof {
                    assert forall|o: BootloaderBoard| !#[trigger] is_profile(id@, o) by {
                        if is_profile(id@, o) {
                            law_identities_are_distinct(o, b);
                        }
                    }
                }
                otherwise
            },
            Some(name) => {
                assert(is_profile(id@, b));
                name
            },
        },
    }
}

/// Whether `label` is the label of a package's target: that of an application from the catalogue of
/// targets, or the board profile of a bootloader.
pub open spec fn is_target_label(
    m: Manifest,
    blob: Seq<u8>,
    app_label: Seq<char>,
    label: Seq<char>,
) -> bool {
    if !m.has_flag(MFLAG_BOOTLOADER) {
        label == app_label
    } else {
        match package_identity(m, blob) {
            None => label == "unsupported bootloader"@,
            Some(id) => profile_label(id, "unsupported bootloader"@, label),
        }
    }
}

/// The identity that a bootloader package embeds.
fn find_identity(m: &Manifest, blob: &[u8]) -> (r: Option<BootloaderIdentity>)
    ensures
        match r {
            Some(id) => package_identity(*m, blob@) == Some(id@),
            None => package_identity(*m, blob@) is None,
        },
{
    let start: u64 = m.leaves_off() as u64 + m.block_count as u64 * 4;
    let end: u64 = start + m.payload_size as u64;
    if end > blob.len() as u64 {
        return None;
    }
    let payload = slice_subrange(blob, start as usize, end as usize);
    assert(payload@ == payload_of(blob@, m.block_count as int, m.payload_size as int));
    match validate_bootloader_image(payload, m.target_id, &m.hw_id, m.fw_version) {
        Ok(id) => Some(id),
        Err(_) => None,
    }
}

/// Labels the target of a package. `app_label` is the label of its target id in the catalogue of
/// application targets.
pub fn package_target_label(m: &Manifest, blob: &[u8], app_label: &str) -> (r: String)
    ensures
        is_target_label(*m, blob@, app_label@, r@),
{
    if !m.is_bootloader() {
        return String::from_str(app_label);
    }
    match find_identity(m, blob) {
        None => String::from_str("unsupported bootloader"),
        Some(id) => String::from_str(profile_of(&id, "unsupported bootloader")),
    }
}

/// What is wrong with the signer of a package that must be signed by a given key.
pub open spec fn signer_fault(m: Manifest, want: Seq<u8>) -> Option<Seq<char>> {
    if !m.has_flag(MFLAG_SIGNED) {
        Some("not signed (but --pub was given)"@)
    } else if m.signer@ != want {
        Some("signed by a different key than --pub"@)
    } else {
        None
    }
}

/// Checks that a package is signed by the given key.
pub fn signer_problem(m: &Manifest, want: &[u8; 32]) -> (r: Option<&'static str>)
    ensures
        match r {
            Some(p) => signer_fault(*m, want@) == Some(p@),
            None => signer_fault(*m, want@) is None,
        },
{
    if !m.is_signed() {
        Some("not signed (but --pub was given)")
    } else if !bytes_eq(&m.signer, want) {
        Some("signed by a different key than --pub")
    } else {
        None
    }
}

/// Whether a package is signed, in a word.
pub open spec fn signed_text(m: Manifest) -> Seq<char> {
    if m.has_flag(MFLAG_SIGNED) {
        "signed"@
    } else {
        "unsigned"@
    }
}

fn signed_word(m: &Manifest) -> (r: &'static str)
    ensures
        r@ == signed_text(*m),
{
    if m.is_signed() {
        "signed"
    } else {
        "unsigned"
    }
}

/// The hardware id of a package, or a placeholder where it has none.
pub open spec fn hw_or(m: Manifest, otherwise: Seq<char>) -> Seq<char> {
    if cstr_text(m.hw_id@).len() == 0 {
        otherwise
    } else {
        cstr_text(m.hw_id@)
    }
}

fn hw_text(m: &Manifest, otherwise: &str) -> (r: String)
    ensures
        r@ == hw_or(*m, otherwise@),
{
    let hw = m.hw_id_str();
    if hw.as_str().unicode_len() == 0 {
        String::from_str(otherwise)
    } else {
        hw
    }
}

/// The line that reports a sound container.
pub open spec fn ok_text(
    file: Seq<char>,
    m: Manifest,
    label: Seq<char>,
    size: int,
) -> Seq<char> {
    "OK    "@ + file + " : "@ + kind_of(m) + " target="@ + hex_fixed(m.target_id as int, 8) + " ["@
        + label + "] v"@ + package_version_text(m) + " hw="@ + hw_or(m, "?"@) + " "@ + signed_text(
        m,
    ) + " blocks="@ + dec(m.block_count as int) + " size="@ + dec(size)
}

/// Writes the line that reports a sound container.
pub fn ok_line(file: &str, m: &Manifest, label: &str, size: usize) -> (s: String)
    ensures
        s@ == ok_text(file@, *m, label@, size as int),
{
    let mut s = String::from_str("OK    ");
    s.append(file);
    s.append(" : ");
    s.append(kind_label(m));
    s.append(" target=");
    push_hex_fixed(&mut s, m.target_id as u64, 8);
    s.append(" [");
    s.append(label);
    s.append("] v");
    s.append(package_version_str(m).as_str());
    s.append(" hw=");
    s.append(hw_text(m, "?").as_str());
    s.append(" ");
    s.append(signed_word(m));
    s.append(" blocks=");
    push_dec(&mut s, m.block_count as u64);
    s.append(" size=");
    push_dec(&mut s, size as u64);
    s
}

/// Each problem in brackets, with a space before it.
pub open spec fn bracketed(problems: Seq<Seq<char>>) -> Seq<char>
    decreases problems.len(),
{
    if problems.len() == 0 {
        Seq::empty()
    } else {
        bracketed(problems.drop_last()) + " ["@ + problems.last() + "]"@
    }
}

/// Writes the line that reports a container's problems.
pub fn fail_line(file: &str, problems: &Vec<String>) -> (s: String)
    ensures
        s@ == "FAIL  "@ + file@ + " :"@ + bracketed(texts(problems@)),
{
    let mut s = String::from_str("FAIL  ");
    s.append(file);
    s.append(" :");
    let ghost head = s@;
    let ghost all = texts(problems@);
    let mut i: usize = 0;
    assert(all.take(0) =~= Seq::empty());
    assert(head + Seq::<char>::empty() =~= head);
    while i < problems.len()
        invariant
            i <= problems@.len(),
            all == texts(problems@),
            s@ == head + bracketed(all.take(i as int)),
        decreases problems@.len() - i,
    {
        s.append(" [");
        s.append(problems[i].as_str());
        s.append("]");
        proof {
            let next = all.take(i + 1);
            assert(next.drop_last() =~= all.take(i as int));
            assert(next.last() == problems@[i as int]@);
            assert(s@ =~= head + bracketed(next));
        }
        i += 1;
    }
    assert(all.take(i as int) =~= all);
    s
}

/// What verifying one file comes to: whether it passed, and the line that says so. `want` is the key
/// that must have signed it, if one was given.
pub fn file_report(
    file: &str,
    blob: &[u8],
    problems: Vec<String>,
    parsed: &Option<Manifest>,
    want: &Option<[u8; 32]>,
    app_label: &str,
) -> (r: (bool, String))
    ensures
        ({
            let signer = if parsed is Some && want is Some {
                signer_fault(parsed->0, want->0@)
            } else {
                None
            };
            let all = match signer {
                Some(p) => texts(problems@).push(p),
                None => texts(problems@),
            };
            &&& r.0 == (parsed is Some && all.len() == 0)
            &&& !r.0 ==> r.1@ == "FAIL  "@ + file@ + " :"@ + bracketed(all)
            &&& r.0 ==> exists|label: Seq<char>|
                is_target_label(parsed->0, blob@, app_label@, label) && r.1@ == #[trigger] ok_text(
                    file@,
                    parsed->0,
                    label,
                    blob@.len() as int,
                )
        }),
{
    let ghost given = texts(problems@);
    let mut all = problems;
    if let (Some(m), Some(key)) = (parsed, want) {
        if let Some(p) = signer_problem(m, key) {
            all.push(String::from_str(p));
            assert(texts(all@) =~= given.push(p@));
        }
    }
    if all.len() == 0 {
        if let Some(m) = parsed {
            let label = package_target_label(m, blob, app_label);
            return (true, ok_line(file, m, label.as_str(), blob.len()));
        }
    }
    (false, fail_line(file, &all))
}

/// Whether a verdict and its line are those on a well-formed container: it passes where it has no
/// problem and was signed by the key that must have signed it, if one was given.
pub open spec fn is_verdict(
    file: Seq<char>,
    blob: Seq<u8>,
    m: Manifest,
    want: Option<Seq<u8>>,
    app_label: Seq<char>,
    passed: bool,
    line: Seq<char>,
) -> bool {
    let found = messages(problems_of(blob, m));
    let signer = if want is Some {
        signer_fault(m, want->0)
    } else {
        None
    };
    let all = if signer is Some {
        found.push(signer->0)
    } else {
        found
    };
    &&& passed == (all.len() == 0)
    &&& passed ==> exists|label: Seq<char>|
        is_target_label(m, blob, app_label, label) && line == #[trigger] ok_text(
            file,
            m,
            label,
            blob.len() as int,
        )
    &&& !passed ==> line == "FAIL  "@ + file + " :"@ + bracketed(all)
}

/// Verifies the bytes of one file: whether it passed, and the line that says so. `want` is the key
/// that must have signed it, if one was given.
pub fn verify_file(file: &str, blob: &[u8], want: &Option<[u8; 32]>, app_label: &str) -> (r: (
    bool,
    String,
))
    ensures
        ({
            let key = match *want {
                Some(key) => Some(key@),
                None => None,
            };
            ||| exists|m: Manifest| #[trigger]
                is_container(blob@, m) && is_verdict(
                    file@,
                    blob@,
                    m,
                    key,
                    app_label@,
                    r.0,
                    r.1@,
                )
            ||| !r.0 && exists|e: ContainerError| #[trigger]
                parses_to(blob@, Err(e)) && r.1@ == "FAIL  "@ + file@ + " :"@ + bracketed(
                    seq![e.message()],
                )
        }),
{
    match Manifest::parse(blob) {
        Err(e) => {
            let mut problems: Vec<String> = Vec::new();
            problems.push(e.to_string());
            assert(texts(problems@) =~= seq![e.message()]);
            assert(parses_to(blob@, Err(e)));
            (false, fail_line(file, &problems))
        },
        Ok(m) => {
            assert(is_container(blob@, m));
            let problems = verify(blob);
            assert(texts(problems@) == messages(problems_of(blob@, m)));
            file_report(file, blob, problems, &Some(m), want, app_label)
        },
    }
}

fn add_line(out: &mut Vec<String>, line: String)
    ensures
        texts(final(out)@) == texts(old(out)@).push(line@),
{
    let ghost before = out@;
    out.push(line);
    assert(texts(out@) =~= texts(before).push(line@));
}

fn labelled(label: &str, value: &str) -> (s: String)
    ensures
        s@ == label@ + value@,
{
    let mut s = String::from_str(label);
    s.append(value);
    s
}

fn labelled_number(label: &str, value: u64) -> (s: String)
    ensures
        s@ == label@ + dec(value as int),
{
    let mut s = String::from_str(label);
    push_dec(&mut s, value);
    s
}

/// The name of a package's codec.
pub open spec fn codec_text(m: Manifest) -> Seq<char> {
    match codec_of_id(m.codec_id) {
        Some(codec) => codec.spec_label(),
        None => "?"@,
    }
}

fn codec_label(m: &Manifest) -> (r: &'static str)
    ensures
        r@ == codec_text(*m),
{
    match m.codec() {
        Some(codec) => codec.label(),
        None => "?",
    }
}

/// The lines that every package has, up to its hardware id.
pub open spec fn common_lines(m: Manifest, size: int, label: Seq<char>) -> Seq<Seq<char>> {
    seq![
        "total_size     : "@ + dec(size),
        "package_kind   : "@ + kind_of(m),
        "format_ver     : "@ + dec(m.format_ver as int),
        "flags          : 0x"@ + hex_fixed_lower(m.flags as int, 2) + "  FULL="@ + bool_text(
            m.has_flag(MFLAG_FULL),
        ) + " SIGNED="@ + bool_text(m.has_flag(MFLAG_SIGNED)) + " BOOTLOADER="@ + bool_text(
            m.has_flag(MFLAG_BOOTLOADER),
        ),
        "hash_algo      : 0x"@ + hex_fixed_lower(m.hash_algo as int, 2) + " (sha2-256)"@,
        "target_id      : 0x"@ + hex_fixed_lower(m.target_id as int, 8) + "  ("@ + label + ")"@,
        "fw_version     : "@ + package_version_text(m) + "  (0x"@ + hex_fixed_lower(
            m.fw_version as int,
            8,
        ) + ")"@,
        "image_size     : "@ + dec(m.image_size as int),
        "payload_size   : "@ + dec(m.payload_size as int),
        "block_size     : "@ + dec(m.spec_block_size() as int) + "  (log2="@ + dec(
            m.block_size_log2 as int,
        ) + ")  block_count="@ + dec(m.block_count as int),
        "codec_id       : "@ + dec(m.codec_id as int) + " ("@ + codec_text(m) + ")"@,
        "merkle_root    : "@ + bytes_hex_upper(m.merkle_root@),
        "image_hash     : "@ + bytes_hex_upper(m.image_hash@),
        "hw_id          : "@ + hw_or(m, "(none)"@),
    ]
}

fn common_report(m: &Manifest, size: usize, label: &str) -> (out: Vec<String>)
    requires
        m.block_size_log2 < 32,
    ensures
        texts(out@) == common_lines(*m, size as int, label@),
{
    let mut out: Vec<String> = Vec::new();
    assert(texts(out@) =~= Seq::empty());
    add_line(&mut out, labelled_number("total_size     : ", size as u64));
    add_line(&mut out, labelled("package_kind   : ", kind_label(m)));
    add_line(&mut out, labelled_number("format_ver     : ", m.format_ver as u64));
    let mut flags = String::from_str("flags          : 0x");
    push_hex_fixed_lower(&mut flags, m.flags as u64, 2);
    flags.append("  FULL=");
    flags.append(bool_str(m.is_full()));
    flags.append(" SIGNED=");
    flags.append(bool_str(m.is_signed()));
    flags.append(" BOOTLOADER=");
    flags.append(bool_str(m.is_bootloader()));
    add_line(&mut out, flags);
    let mut algo = String::from_str("hash_algo      : 0x");
    push_hex_fixed_lower(&mut algo, m.hash_algo as u64, 2);
    algo.append(" (sha2-256)");
    add_line(&mut out, algo);
    let mut target = String::from_str("target_id      : 0x");
    push_hex_fixed_lower(&mut target, m.target_id as u64, 8);
    target.append("  (");
    target.append(label);
    target.append(")");
    add_line(&mut out, target);
    let mut version = String::from_str("fw_version     : ");
    version.append(package_version_str(m).as_str());
    version.append("  (0x");
    push_hex_fixed_lower(&mut version, m.fw_version as u64, 8);
    version.append(")");
    add_line(&mut out, version);
    add_line(&mut out, labelled_number("image_size     : ", m.image_size as u64));
    add_line(&mut out, labelled_number("payload_size   : ", m.payload_size as u64));
    let mut block = labelled_number("block_size     : ", m.block_size() as u64);
    block.append("  (log2=");
    push_dec(&mut block, m.block_size_log2 as u64);
    block.append(")  block_count=");
    push_dec(&mut block, m.block_count as u64);
    add_line(&mut out, block);
    let mut codec = labelled_number("codec_id       : ", m.codec_id as u64);
    codec.append(" (");
    codec.append(codec_label(m));
    codec.append(")");
    add_line(&mut out, codec);
    add_line(&mut out, labelled("merkle_root    : ", hex_encode_upper(&m.merkle_root).as_str()));
    add_line(&mut out, labelled("image_hash     : ", hex_encode_upper(&m.image_hash).as_str()));
    add_line(&mut out, labelled("hw_id          : ", hw_text(m, "(none)").as_str()));
    assert(texts(out@) =~= common_lines(*m, size as int, label@));
    out
}

/// The lines on a delta's base and on a signature.
pub open spec fn origin_lines(m: Manifest) -> Seq<Seq<char>> {
    (if m.has_flag(MFLAG_FULL) {
        Seq::empty()
    } else {
        seq![
            "base_hash      : "@ + bytes_hex_upper(m.base_hash@) + if m.base_hash@ == Seq::new(
                8,
                |i: int| 0u8,
            ) {
                "  (zero)"@
            } else {
                ""@
            },
        ]
    }) + if m.has_flag(MFLAG_SIGNED) {
        seq![
            "signer_pubkey  : "@ + bytes_hex_upper(m.signer@),
            "signature      : "@ + bytes_hex_upper(m.signature@),
        ]
    } else {
        Seq::empty()
    }
}

fn origin_report(out: &mut Vec<String>, m: &Manifest)
    ensures
        texts(final(out)@) == texts(old(out)@) + origin_lines(*m),
{
    let ghost start = texts(out@);
    if !m.is_full() {
        let zero: [u8; 8] = [0u8; 8];
        assert(zero@ =~= Seq::new(8, |i: int| 0u8));
        let mut line = labelled("base_hash      : ", hex_encode_upper(&m.base_hash).as_str());
        line.append(
            if bytes_eq(&m.base_hash, &zero) {
                "  (zero)"
            } else {
                ""
            },
        );
        add_line(out, line);
    }
    if m.is_signed() {
        add_line(out, labelled("signer_pubkey  : ", hex_encode_upper(&m.signer).as_str()));
        add_line(out, labelled("signature      : ", hex_encode_upper(&m.signature).as_str()));
    }
    assert(texts(out@) =~= start + origin_lines(*m));
}

/// The lines on a bootloader's embedded identity, with the name of its board profile.
pub open spec fn boot_lines(id: IdentityView, profile: Seq<char>) -> Seq<Seq<char>> {
    seq![
        "bootloader_profile: "@ + profile,
        "bootloader_offset: 0x"@ + hex_fixed_lower(id.manifest_offset, 4),
        "bootloader_board: 0x"@ + hex_fixed_lower(id.board_id as int, 8),
        "bootloader_name : "@ + id.device_name,
        "bootloader_version: "@ + bootloader_version_text(id.boot_version) + "  (0x"@
            + hex_fixed_lower(id.boot_version as int, 8) + ")"@,
        "bootloader_cont : S"@ + dec(id.softdevice_family as int) + " fwid=0x"@ + hex_fixed_lower(
            id.softdevice_fwid as int,
            4,
        ) + " app=0x"@ + hex_lower(id.app_base as int) + " ABI"@ + dec(id.layout_abi as int),
        "bootloader_store: 0x"@ + hex_fixed_lower(id.storage_flags as int, 2),
    ]
}

fn boot_report(out: &mut Vec<String>, id: &BootloaderIdentity) -> (profile: &'static str)
    ensures
        profile_label(id@, "unsupported"@, profile@),
        texts(final(out)@) == texts(old(out)@) + boot_lines(id@, profile@),
{
    let ghost start = texts(out@);
    let profile = profile_of(id, "unsupported");
    add_line(out, labelled("bootloader_profile: ", profile));
    let mut offset = String::from_str("bootloader_offset: 0x");
    push_hex_fixed_lower(&mut offset, id.manifest_offset as u64, 4);
    add_line(out, offset);
    let mut board = String::from_str("bootloader_board: 0x");
    push_hex_fixed_lower(&mut board, id.board_id as u64, 8);
    add_line(out, board);
    add_line(out, labelled("bootloader_name : ", id.device_name.as_str()));
    let mut version = labelled(
        "bootloader_version: ",
        bootloader_version_str(id.boot_version).as_str(),
    );
    version.append("  (0x");
    push_hex_fixed_lower(&mut version, id.boot_version as u64, 8);
    version.append(")");
    add_line(out, version);
    let mut cont = labelled_number("bootloader_cont : S", id.softdevice_family as u64);
    cont.append(" fwid=0x");
    push_hex_fixed_lower(&mut cont, id.softdevice_fwid as u64, 4);
    cont.append(" app=0x");
    push_hex_lower(&mut cont, id.app_base as u64);
    cont.append(" ABI");
    push_dec(&mut cont, id.layout_abi as u64);
    add_line(out, cont);
    let mut store = String::from_str("bootloader_store: 0x");
    push_hex_fixed_lower(&mut store, id.storage_flags as u64, 2);
    add_line(out, store);
    assert(texts(out@) =~= start + boot_lines(id@, profile@));
    profile
}

/// The last lines of a report.
pub open spec fn closing_lines(m: Manifest) -> Seq<Seq<char>> {
    seq![
        "approval       : "@ + bytes_hex_upper(m.approval@) + "  ("@ + (if m.approval@
            == APPROVAL_APPROVED@ {
            "APPROVED"@
        } else {
            "not approved"@
        }) + ")"@,
        "leaves[]       : "@ + dec(m.block_count as int) + " x 4 bytes"@,
    ]
}

fn closing_report(out: &mut Vec<String>, m: &Manifest)
    ensures
        texts(final(out)@) == texts(old(out)@) + closing_lines(*m),
{
    let ghost start = texts(out@);
    let mut approval = labelled("approval       : ", hex_encode_upper(&m.approval).as_str());
    approval.append("  (");
    approval.append(
        if m.is_approved() {
            "APPROVED"
        } else {
            "not approved"
        },
    );
    approval.append(")");
    add_line(out, approval);
    let mut leaves = labelled_number("leaves[]       : ", m.block_count as u64);
    leaves.append(" x 4 bytes");
    add_line(out, leaves);
    assert(texts(out@) =~= start + closing_lines(*m));
}

/// Whether `lines` is the report on every field of a container's manifest.
pub open spec fn is_inspection(
    m: Manifest,
    blob: Seq<u8>,
    app_label: Seq<char>,
    lines: Seq<Seq<char>>,
) -> bool {
    exists|label: Seq<char>, profile: Seq<char>|
        #![trigger common_lines(m, blob.len() as int, label), profile_lines(m, blob, profile)]
        {
            &&& is_target_label(m, blob, app_label, label)
            &&& m.has_flag(MFLAG_BOOTLOADER) ==> package_identity(m, blob) is Some
                && profile_label(package_identity(m, blob)->0, "unsupported"@, profile)
            &&& lines == common_lines(m, blob.len() as int, label) + origin_lines(m)
                + profile_lines(m, blob, profile) + closing_lines(m)
        }
}

/// The lines on a bootloader package's identity; none for another package.
pub open spec fn profile_lines(m: Manifest, blob: Seq<u8>, profile: Seq<char>) -> Seq<Seq<char>> {
    if m.has_flag(MFLAG_BOOTLOADER) {
        boot_lines(package_identity(m, blob)->0, profile)
    } else {
        Seq::empty()
    }
}

proof fn lemma_container_identity(blob: Seq<u8>, m: Manifest)
    requires
        is_container(blob, m),
        m.has_flag(MFLAG_BOOTLOADER),
    ensures
        package_identity(m, blob) is Some,
{
    lemma_container_geometry(blob, m);
    let flags = m.flags;
    assert(flags & !0x03u8 == 0 ==> flags & 0x04u8 == 0) by (bit_vector);
}

/// Reports every field of a container's manifest, a line for each.
pub fn inspect(blob: &[u8], app_label: &str) -> (r: Result<Vec<String>, ContainerError>)
    ensures
        match r {
            Ok(lines) => exists|m: Manifest| #[trigger]
                is_container(blob@, m) && is_inspection(m, blob@, app_label@, texts(lines@)),
            Err(e) => parses_to(blob@, Err(e)),
        },
{
    let m = match Manifest::parse(blob) {
        Err(e) => {
            return Err(e);
        },
        Ok(m) => m,
    };
    proof {
        lemma_container_geometry(blob@, m);
        if m.has_flag(MFLAG_BOOTLOADER) {
            lemma_container_identity(blob@, m);
        }
    }
    let label = package_target_label(&m, blob, app_label);
    let mut out = common_report(&m, blob.len(), label.as_str());
    origin_report(&mut out, &m);
    let ghost head = texts(out@);
    let ghost mut profile: Seq<char> = Seq::empty();
    if m.is_bootloader() {
        if let Some(id) = find_identity(&m, blob) {
            let name = boot_report(&mut out, &id);
            proof {
                profile = name@;
            }
        }
    }
    assert(texts(out@) =~= head + profile_lines(m, blob@, profile));
    closing_report(&mut out, &m);
    proof {
        let common = common_lines(m, blob@.len() as int, label@);
        assert(texts(out@) =~= common + origin_lines(m) + profile_lines(m, blob@, profile)
            + closing_lines(m));
        assert(is_inspection(m, blob@, app_label@, texts(out@)));
        assert(is_container(blob@, m));
    }
    Ok(out)
}

/// The line that lists a served container.
pub open spec fn served_text(
    name: Seq<char>,
    m: Manifest,
    label: Seq<char>,
    size: int,
) -> Seq<char> {
    "  - "@ + name + " : mid="@ + bytes_hex_upper(m.merkle_root@) + " target="@ + hex_fixed(
        m.target_id as int,
        8,
    ) + " ["@ + label + "] v"@ + package_version_text(m) + " "@ + (if m.has_flag(
        MFLAG_BOOTLOADER,
    ) {
        "bootloader"@
    } else {
        match codec_of_id(m.codec_id) {
            Some(codec) => codec.spec_name_tag(),
            None => "?"@,
        }
    }) + " "@ + signed_text(m) + " blocks="@ + dec(m.block_count as int) + " size="@ + dec(size)
}

/// Writes the line that lists a served container.
pub fn served_line(name: &str, m: &Manifest, label: &str, size: usize) -> (s: String)
    ensures
        s@ == served_text(name@, *m, label@, size as int),
{
    let tag = if m.is_bootloader() {
        "bootloader"
    } else {
        match m.codec() {
            Some(codec) => codec.name_tag(),
            None => "?",
        }
    };
    let mut s = String::from_str("  - ");
    s.append(name);
    s.append(" : mid=");
    s.append(hex_encode_upper(&m.merkle_root).as_str());
    s.append(" target=");
    push_hex_fixed(&mut s, m.target_id as u64, 8);
    s.append(" [");
    s.append(label);
    s.append("] v");
    s.append(package_version_str(m).as_str());
    s.append(" ");
    s.append(tag);
    s.append(" ");
    s.append(signed_word(m));
    s.append(" blocks=");
    push_dec(&mut s, m.block_count as u64);
    s.append(" size=");
    push_dec(&mut s, size as u64);
    s
}

/// The line that tells which container captures are seeded with.
pub open spec fn seed_text(name: Seq<char>, m: Manifest) -> Seq<char> {
    "seed: "@ + name + " mid="@ + bytes_hex_upper(m.merkle_root@) + " blocks="@ + dec(
        m.block_count as int,
    ) + " payload="@ + dec(m.payload_size as int)
        + " (staged into each capture for `ota pull … validate`)"@
}

/// Writes the line that tells which container captures are seeded with.
pub fn seed_line(name: &str, m: &Manifest) -> (s: String)
    ensures
        s@ == seed_text(name@, *m),
{
    let mut s = String::from_str("seed: ");
    s.append(name);
    s.append(" mid=");
    s.append(hex_encode_upper(&m.merkle_root).as_str());
    s.append(" blocks=");
    push_dec(&mut s, m.block_count as u64);
    s.append(" payload=");
    push_dec(&mut s, m.payload_size as u64);
    s.append(" (staged into each capture for `ota pull … validate`)");
    s
}

/// The lines that sum up a built application package.
pub open spec fn built_lines(
    m: Manifest,
    size: int,
    window: Option<u32>,
    segment: u32,
) -> Seq<Seq<char>> {
    seq![
        "  "@ + kind_of(m) + "  target="@ + hex_fixed(m.target_id as int, 8) + "  v"@
            + version_text(m.fw_version) + "  hw="@ + hw_or(m, "?"@) + "  "@ + signed_text(m),
        "  image="@ + dec(m.image_size as int) + "B  payload="@ + dec(m.payload_size as int)
            + "B  blocks="@ + dec(m.block_count as int) + "  total="@ + dec(size) + "B"@,
    ] + match window {
        Some(memory) => seq![
            "  in-place memory=0x"@ + hex_upper(memory as int) + "  segment="@ + dec(segment as int)
                + "B"@,
        ],
        None => Seq::empty(),
    }
}

/// Sums up a built application package.
pub fn built_report(m: &Manifest, size: usize, window: Option<u32>, segment: u32) -> (out: Vec<
    String,
>)
    ensures
        texts(out@) == built_lines(*m, size as int, window, segment),
{
    let mut out: Vec<String> = Vec::new();
    assert(texts(out@) =~= Seq::empty());
    let mut a = labelled("  ", kind_label(m));
    a.append("  target=");
    push_hex_fixed(&mut a, m.target_id as u64, 8);
    a.append("  v");
    a.append(version_str(m.fw_version).as_str());
    a.append("  hw=");
    a.append(hw_text(m, "?").as_str());
    a.append("  ");
    a.append(signed_word(m));
    add_line(&mut out, a);
    let mut b = labelled_number("  image=", m.image_size as u64);
    b.append("B  payload=");
    push_dec(&mut b, m.payload_size as u64);
    b.append("B  blocks=");
    push_dec(&mut b, m.block_count as u64);
    b.append("  total=");
    push_dec(&mut b, size as u64);
    b.append("B");
    add_line(&mut out, b);
    if let Some(memory) = window {
        let mut c = String::from_str("  in-place memory=0x");
        push_hex(&mut c, memory as u64);
        c.append("  segment=");
        push_dec(&mut c, segment as u64);
        c.append("B");
        add_line(&mut out, c);
    }
    assert(texts(out@) =~= built_lines(*m, size as int, window, segment));
    out
}

/// The lines that sum up a built bootloader package.
pub open spec fn boot_built_lines(
    profile: Seq<char>,
    m: Manifest,
    id: IdentityView,
    size: int,
) -> Seq<Seq<char>> {
    seq![
        "  bootloader  board="@ + profile + "  target="@ + hex_fixed(m.target_id as int, 8)
            + "  v"@ + bootloader_version_text(m.fw_version) + "  signed"@,
        "  region=0x000F4000..0x000FE000  image="@ + dec(m.image_size as int) + "B  blocks="@
            + dec(m.block_count as int) + "  total="@ + dec(size) + "B"@,
        "  continuity=S"@ + dec(id.softdevice_family as int) + " FWID=0x"@ + hex_fixed(
            id.softdevice_fwid as int,
            4,
        ) + " app_base=0x"@ + hex_fixed(id.app_base as int, 8) + " layout_abi="@ + dec(
            id.layout_abi as int,
        ),
    ]
}

/// Sums up a built bootloader package.
pub fn boot_built_report(
    profile: &str,
    m: &Manifest,
    id: &BootloaderIdentity,
    size: usize,
) -> (out: Vec<String>)
    ensures
        texts(out@) == boot_built_lines(profile@, *m, id@, size as int),
{
    let mut out: Vec<String> = Vec::new();
    assert(texts(out@) =~= Seq::empty());
    let mut a = labelled("  bootloader  board=", profile);
    a.append("  target=");
    push_hex_fixed(&mut a, m.target_id as u64, 8);
    a.append("  v");
    a.append(bootloader_version_str(m.fw_version).as_str());
    a.append("  signed");
    add_line(&mut out, a);
    let mut b = labelled_number("  region=0x000F4000..0x000FE000  image=", m.image_size as u64);
    b.append("B  blocks=");
    push_dec(&mut b, m.block_count as u64);
    b.append("  total=");
    push_dec(&mut b, size as u64);
    b.append("B");
    add_line(&mut out, b);
    let mut c = labelled_number("  continuity=S", id.softdevice_family as u64);
    c.append(" FWID=0x");
    push_hex_fixed(&mut c, id.softdevice_fwid as u64, 4);
    c.append(" app_base=0x");
    push_hex_fixed(&mut c, id.app_base as u64, 8);
    c.append(" layout_abi=");
    push_dec(&mut c, id.layout_abi as u64);
    add_line(&mut out, c);
    assert(texts(out@) =~= boot_built_lines(profile@, *m, id@, size as int));
    out
}

/// The sizes of a payload's transport as one line of JSON.
pub open spec fn transport_json(t: DeflateTransportSize) -> Seq<char> {
    "{\"schema\":1,\"payload_bytes\":"@ + dec(t.payload_bytes as int) + ",\"block_size\":"@ + dec(
        t.block_size as int,
    ) + ",\"block_count\":"@ + dec(t.block_count as int) + ",\"wire_bytes\":"@ + dec(
        t.wire_bytes as int,
    ) + ",\"deflate_bytes\":"@ + dec(t.deflate_bytes as int) + ",\"deflate_blocks\":"@ + dec(
        t.deflate_blocks as int,
    ) + ",\"data_packets\":"@ + dec(t.data_packets as int) + "}"@
}

/// Writes the sizes of a payload's transport as one line of JSON.
pub fn transport_line(t: &DeflateTransportSize) -> (s: String)
    ensures
        s@ == transport_json(*t),
{
    let mut s = labelled_number("{\"schema\":1,\"payload_bytes\":", t.payload_bytes as u64);
    s.append(",\"block_size\":");
    push_dec(&mut s, t.block_size as u64);
    s.append(",\"block_count\":");
    push_dec(&mut s, t.block_count as u64);
    s.append(",\"wire_bytes\":");
    push_dec(&mut s, t.wire_bytes as u64);
    s.append(",\"deflate_bytes\":");
    push_dec(&mut s, t.deflate_bytes as u64);
    s.append(",\"deflate_blocks\":");
    push_dec(&mut s, t.deflate_blocks as u64);
    s.append(",\"data_packets\":");
    push_dec(&mut s, t.data_packets as u64);
    s.append("}");
    s
}

/// The kind of a package: a bootloader with flag bit 2; else an in-place delta with codec 2, a
/// sequential delta with codec 1, and with another codec a full package or, without flag bit 0, a
/// sequential delta.
pub proof fn law_kinds(m: Manifest)
    ensures
        kind_of(m) == if m.flags & 0x04 != 0 {
            "bootloader"@
        } else if m.codec_id == 2 {
            "in-place delta"@
        } else if m.codec_id != 1 && m.flags & 0x01 != 0 {
            "full"@
        } else {
            "sequential delta"@
        },
{
}

/// A container passes exactly where verifying it finds nothing and, where a key is asked for, it is
/// signed and that key is its signer. The verdict is the first word of the line.
pub proof fn law_verdict(
    file: Seq<char>,
    blob: Seq<u8>,
    m: Manifest,
    want: Option<Seq<u8>>,
    app_label: Seq<char>,
    passed: bool,
    line: Seq<char>,
)
    requires
        is_verdict(file, blob, m, want, app_label, passed, line),
    ensures
        passed <==> problems_of(blob, m).len() == 0 && (want matches Some(key) ==> m.flags & 0x02
            != 0 && m.signer@ == key),
        passed ==> line.len() >= 6 && line.take(6) == "OK    "@,
        !passed ==> line.len() >= 6 && line.take(6) == "FAIL  "@,
{
    reveal_strlit("OK    ");
    reveal_strlit("FAIL  ");
    if passed {
        let label = choose|label: Seq<char>|
            is_target_label(m, blob, app_label, label) && line == #[trigger] ok_text(
                file,
                m,
                label,
                blob.len() as int,
            );
        assert(line.take(6) =~= "OK    "@);
    } else {
        assert(line.take(6) =~= "FAIL  "@);
    }
}

/// What is said of a signer: a package that is not signed and one that another key signed are told
/// apart, and one that the key signed has no fault.
pub proof fn law_signer_faults(m: Manifest, want: Seq<u8>)
    ensures
        signer_fault(m, want) == if m.flags & 0x02 == 0 {
            Some("not signed (but --pub was given)"@)
        } else if m.signer@ != want {
            Some("signed by a different key than --pub"@)
        } else {
            None
        },
{
}

/// The version of a package shows its channel only for a bootloader.
pub proof fn law_package_versions(m: Manifest)
    ensures
        m.flags & 0x04 == 0 ==> package_version_text(m) == version_text(m.fw_version),
        m.flags & 0x04 != 0 ==> package_version_text(m) == bootloader_version_text(m.fw_version),
        m.flags & 0x02 != 0 ==> signed_text(m) == "signed"@,
        m.flags & 0x02 == 0 ==> signed_text(m) == "unsigned"@,
{
}

/// The label of an application package is the catalogue's. That of a bootloader is the name of the
/// qualified board and storage profile that its image embeds, where there is one.
pub proof fn law_target_labels(
    m: Manifest,
    blob: Seq<u8>,
    app_label: Seq<char>,
    label: Seq<char>,
    b: BootloaderBoard,
)
    requires
        is_target_label(m, blob, app_label, label),
    ensures
        m.flags & 0x04 == 0 ==> label == app_label,
        m.flags & 0x04 != 0 && package_identity(m, blob) is None ==> label
            == "unsupported bootloader"@,
        m.flags & 0x04 != 0 && package_identity(m, blob) is Some ==> {
            let id = package_identity(m, blob)->0;
            b.spec_board_id() == id.board_id && b.spec_device_name() == id.device_name
                && b.spec_profile_name(id.storage_flags) is Some ==> b.spec_profile_name(
                id.storage_flags,
            ) == Some(label)
        },
{
    if m.flags & 0x04 != 0 && package_identity(m, blob) is Some {
        let id = package_identity(m, blob)->0;
        if is_profile(id, b) {
            let o = choose|o: BootloaderBoard| #[trigger]
                is_profile(id, o) && o.spec_profile_name(id.storage_flags) == Some(label);
            law_identities_are_distinct(o, b);
        }
    }
}

/// Problems are listed in order, each in brackets behind a space.
pub proof fn law_problems_in_brackets(problems: Seq<Seq<char>>, last: Seq<char>)
    ensures
        bracketed(Seq::empty()) == Seq::<char>::empty(),
        bracketed(problems.push(last)) == bracketed(problems) + " ["@ + last + "]"@,
{
    assert(problems.push(last).drop_last() =~= problems);
}

/// The inspection of a container tells each field of its manifest on a line of its own, in this
/// order, then the base of a delta, the signer and signature of a signed one, what a bootloader
/// embeds, and the approval and the number of leaves.
pub proof fn law_inspection_lines(
    m: Manifest,
    blob: Seq<u8>,
    app_label: Seq<char>,
    lines: Seq<Seq<char>>,
)
    requires
        is_inspection(m, blob, app_label, lines),
        m.flags & 0x04 == 0,
    ensures
        ({
            let base = if m.flags & 0x01 != 0 {
                0int
            } else {
                1
            };
            let signed = if m.flags & 0x02 != 0 {
                2int
            } else {
                0
            };
            &&& lines.len() == 14 + base + signed + 2
            &&& lines[0] == "total_size     : "@ + dec(blob.len() as int)
            &&& lines[1] == "package_kind   : "@ + kind_of(m)
            &&& lines[2] == "format_ver     : "@ + dec(m.format_ver as int)
            &&& lines[5] == "target_id      : 0x"@ + hex_fixed_lower(m.target_id as int, 8) + "  ("@
                + app_label + ")"@
            &&& lines[6] == "fw_version     : "@ + version_text(m.fw_version) + "  (0x"@
                + hex_fixed_lower(m.fw_version as int, 8) + ")"@
            &&& lines[7] == "image_size     : "@ + dec(m.image_size as int)
            &&& lines[8] == "payload_size   : "@ + dec(m.payload_size as int)
            &&& lines[9] == "block_size     : "@ + dec(pow2(m.block_size_log2 as nat) as int)
                + "  (log2="@ + dec(m.block_size_log2 as int) + ")  block_count="@ + dec(
                m.block_count as int,
            )
            &&& lines[11] == "merkle_root    : "@ + bytes_hex_upper(m.merkle_root@)
            &&& lines[12] == "image_hash     : "@ + bytes_hex_upper(m.image_hash@)
            &&& base == 1 ==> "base_hash      : "@.is_prefix_of(lines[14])
            &&& signed == 2 ==> lines[14 + base] == "signer_pubkey  : "@ + bytes_hex_upper(
                m.signer@,
            ) && lines[15 + base] == "signature      : "@ + bytes_hex_upper(m.signature@)
            &&& lines[15 + base + signed] == "leaves[]       : "@ + dec(m.block_count as int)
                + " x 4 bytes"@
        }),
{
    let (label, profile) = choose|label: Seq<char>, profile: Seq<char>|
        #![trigger common_lines(m, blob.len() as int, label), profile_lines(m, blob, profile)]
        {
            &&& is_target_label(m, blob, app_label, label)
            &&& m.has_flag(MFLAG_BOOTLOADER) ==> package_identity(m, blob) is Some
                && profile_label(package_identity(m, blob)->0, "unsupported"@, profile)
            &&& lines == common_lines(m, blob.len() as int, label) + origin_lines(m)
                + profile_lines(m, blob, profile) + closing_lines(m)
        };
    let common = common_lines(m, blob.len() as int, label);
    assert(label == app_label);
    assert(forall|i: int| 0 <= i < 14 ==> lines[i] == common[i]);
    let origin = origin_lines(m);
    assert(forall|i: int| 0 <= i < origin.len() ==> lines[14 + i] == origin[i]);
    let closing = closing_lines(m);
    assert(lines[15 + origin.len() as int] == closing[1]);
    if m.flags & 0x01 == 0 {
        assert("base_hash      : "@ =~= origin[0].subrange(0, "base_hash      : "@.len() as int));
    }
}

/// The lines that sum a package up end in the numbers of its manifest: the line on a sound container
/// and the one that lists it with its blocks and its size in bytes, the one on a seed with its blocks
/// and its payload.
pub proof fn law_summary_numbers(
    name: Seq<char>,
    m: Manifest,
    label: Seq<char>,
    size: int,
)
    ensures
        ({
            let version = if m.flags & 0x04 != 0 {
                bootloader_version_text(m.fw_version)
            } else {
                version_text(m.fw_version)
            };
            let identity = " target="@ + hex_fixed(m.target_id as int, 8) + " ["@ + label + "] v"@
                + version;
            let signed = if m.flags & 0x02 != 0 {
                "signed"@
            } else {
                "unsigned"@
            };
            let counts = " blocks="@ + dec(m.block_count as int) + " size="@ + dec(size);
            let hw = if cstr_text(m.hw_id@).len() > 0 {
                cstr_text(m.hw_id@)
            } else {
                "?"@
            };
            let kind = if m.flags & 0x04 != 0 {
                "bootloader"@
            } else if m.codec_id == 0 {
                "full"@
            } else if m.codec_id == 1 {
                "seqdelta"@
            } else if m.codec_id == 2 {
                "ipdelta"@
            } else {
                "?"@
            };
            &&& ok_text(name, m, label, size) == "OK    "@ + name + " : "@ + kind_of(m) + identity
                + " hw="@ + hw + " "@ + signed + counts
            &&& served_text(name, m, label, size) == "  - "@ + name + " : mid="@ + bytes_hex_upper(
                m.merkle_root@,
            ) + identity + " "@ + kind + " "@ + signed + counts
            &&& seed_text(name, m) == "seed: "@ + name + " mid="@ + bytes_hex_upper(m.merkle_root@)
                + " blocks="@ + dec(m.block_count as int) + " payload="@ + dec(
                m.payload_size as int,
            ) + " (staged into each capture for `ota pull … validate`)"@
        }),
{
    let version = package_version_text(m);
    let target = hex_fixed(m.target_id as int, 8);
    let head_a = "OK    "@ + name + " : "@ + kind_of(m);
    let head_b = "  - "@ + name + " : mid="@ + bytes_hex_upper(m.merkle_root@);
    let identity = " target="@ + target + " ["@ + label + "] v"@ + version;
    let counts = " blocks="@ + dec(m.block_count as int) + " size="@ + dec(size);
    lemma_regroup(head_a, target, label, version);
    lemma_regroup(head_b, target, label, version);
    let mid_a = head_a + identity + " hw="@ + hw_or(m, "?"@) + " "@ + signed_text(m);
    lemma_counts(mid_a, dec(m.block_count as int), dec(size));
    let kind = if m.flags & 0x04 != 0 {
        "bootloader"@
    } else {
        match codec_of_id(m.codec_id) {
            Some(codec) => codec.spec_name_tag(),
            None => "?"@,
        }
    };
    let mid_b = head_b + identity + " "@ + kind + " "@ + signed_text(m);
    lemma_counts(mid_b, dec(m.block_count as int), dec(size));
}

proof fn lemma_regroup(head: Seq<char>, target: Seq<char>, label: Seq<char>, version: Seq<char>)
    ensures
        head + " target="@ + target + " ["@ + label + "] v"@ + version == head + (" target="@
            + target + " ["@ + label + "] v"@ + version),
{
    assert(head + " target="@ + target + " ["@ + label + "] v"@ + version =~= head + (" target="@
        + target + " ["@ + label + "] v"@ + version));
}

proof fn lemma_counts(head: Seq<char>, blocks: Seq<char>, size: Seq<char>)
    ensures
        head + " blocks="@ + blocks + " size="@ + size == head + (" blocks="@ + blocks + " size="@
            + size),
{
    assert(head + " blocks="@ + blocks + " size="@ + size =~= head + (" blocks="@ + blocks
        + " size="@ + size));
}

/// What is told of a built package: its kind, identity and signing, then the sizes of image, payload
/// and package and the number of blocks, and the window and segment of an in-place delta alone.
pub proof fn law_built_summary(m: Manifest, size: int, window: Option<u32>, segment: u32)
    ensures
        ({
            let lines = built_lines(m, size, window, segment);
            &&& lines.len() == if window is Some {
                3int
            } else {
                2
            }
            &&& lines[1] == "  image="@ + dec(m.image_size as int) + "B  payload="@ + dec(
                m.payload_size as int,
            ) + "B  blocks="@ + dec(m.block_count as int) + "  total="@ + dec(size) + "B"@
            &&& lines[0] == "  "@ + kind_of(m) + "  target="@ + hex_fixed(m.target_id as int, 8)
                + "  v"@ + version_text(m.fw_version) + "  hw="@ + (if cstr_text(m.hw_id@).len()
                > 0 {
                cstr_text(m.hw_id@)
            } else {
                "?"@
            }) + "  "@ + (if m.flags & 0x02 != 0 {
                "signed"@
            } else {
                "unsigned"@
            })
            &&& window matches Some(memory) ==> lines[2] == "  in-place memory=0x"@ + hex_upper(
                memory as int,
            ) + "  segment="@ + dec(segment as int) + "B"@
        }),
{
}

/// What is told of a bootloader's embedded identity, when it is built and when it is inspected.
pub proof fn law_bootloader_summary(
    profile: Seq<char>,
    m: Manifest,
    id: IdentityView,
    size: int,
)
    ensures
        ({
            let built = boot_built_lines(profile, m, id, size);
            let told = boot_lines(id, profile);
            &&& built.len() == 3 && told.len() == 7
            &&& built[0] == "  bootloader  board="@ + profile + "  target="@ + hex_fixed(
                m.target_id as int,
                8,
            ) + "  v"@ + bootloader_version_text(m.fw_version) + "  signed"@
            &&& built[1] == "  region=0x000F4000..0x000FE000  image="@ + dec(m.image_size as int)
                + "B  blocks="@ + dec(m.block_count as int) + "  total="@ + dec(size) + "B"@
            &&& built[2] == "  continuity=S"@ + dec(id.softdevice_family as int) + " FWID=0x"@
                + hex_fixed(id.softdevice_fwid as int, 4) + " app_base=0x"@ + hex_fixed(
                id.app_base as int,
                8,
            ) + " layout_abi="@ + dec(id.layout_abi as int)
            &&& told[0] == "bootloader_profile: "@ + profile
            &&& told[1] == "bootloader_offset: 0x"@ + hex_fixed_lower(id.manifest_offset, 4)
            &&& told[2] == "bootloader_board: 0x"@ + hex_fixed_lower(id.board_id as int, 8)
            &&& told[3] == "bootloader_name : "@ + id.device_name
            &&& told[4] == "bootloader_version: "@ + bootloader_version_text(id.boot_version)
                + "  (0x"@ + hex_fixed_lower(id.boot_version as int, 8) + ")"@
            &&& told[5] == "bootloader_cont : S"@ + dec(id.softdevice_family as int) + " fwid=0x"@
                + hex_fixed_lower(id.softdevice_fwid as int, 4) + " app=0x"@ + hex_lower(
                id.app_base as int,
            ) + " ABI"@ + dec(id.layout_abi as int)
            &&& told[6] == "bootloader_store: 0x"@ + hex_fixed_lower(id.storage_flags as int, 2)
        }),
{
}

/// What an inspection tells of flags, codec, hardware and approval.
pub proof fn law_inspected_states(m: Manifest, size: int, label: Seq<char>)
    ensures
        ({
            let lines = common_lines(m, size, label);
            let word = |b: bool|
                if b {
                    "true"@
                } else {
                    "false"@
                };
            &&& lines[3] == "flags          : 0x"@ + hex_fixed_lower(m.flags as int, 2) + "  FULL="@
                + word(m.flags & 0x01 != 0) + " SIGNED="@ + word(m.flags & 0x02 != 0)
                + " BOOTLOADER="@ + word(m.flags & 0x04 != 0)
            &&& lines[4] == "hash_algo      : 0x"@ + hex_fixed_lower(m.hash_algo as int, 2)
                + " (sha2-256)"@
            &&& lines[10] == "codec_id       : "@ + dec(m.codec_id as int) + " ("@ + (if m.codec_id
                == 0 {
                "full"@
            } else if m.codec_id == 1 {
                "detools-sequential"@
            } else if m.codec_id == 2 {
                "detools-inplace"@
            } else {
                "?"@
            }) + ")"@
            &&& lines[13] == "hw_id          : "@ + (if cstr_text(m.hw_id@).len() > 0 {
                cstr_text(m.hw_id@)
            } else {
                "(none)"@
            })
            &&& closing_lines(m)[0] == "approval       : "@ + bytes_hex_upper(m.approval@) + "  ("@
                + (if m.approval@ == seq![0x41u8, 0x50, 0x52, 0x56] {
                "APPROVED"@
            } else {
                "not approved"@
            }) + ")"@
            &&& m.flags & 0x01 == 0 ==> origin_lines(m)[0] == "base_hash      : "@ + bytes_hex_upper(
                m.base_hash@,
            ) + (if m.base_hash@ == seq![0u8, 0, 0, 0, 0, 0, 0, 0] {
                "  (zero)"@
            } else {
                ""@
            })
        }),
{
    assert(APPROVAL_APPROVED@ =~= seq![0x41u8, 0x50, 0x52, 0x56]);
    assert(Seq::new(8, |i: int| 0u8) =~= seq![0u8, 0, 0, 0, 0, 0, 0, 0]);
}

/// The transport sizes are told as one line of JSON with each number under its own name.
pub proof fn law_transport_json(t: DeflateTransportSize)
    ensures
        transport_json(t) == "{\"schema\":1,\"payload_bytes\":"@ + dec(t.payload_bytes as int)
            + ",\"block_size\":"@ + dec(t.block_size as int) + ",\"block_count\":"@ + dec(
            t.block_count as int,
        ) + ",\"wire_bytes\":"@ + dec(t.wire_bytes as int) + ",\"deflate_bytes\":"@ + dec(
            t.deflate_bytes as int,
        ) + ",\"deflate_blocks\":"@ + dec(t.deflate_blocks as int) + ",\"data_packets\":"@ + dec(
            t.data_packets as int,
        ) + "}"@,
{
}

} // verus!
