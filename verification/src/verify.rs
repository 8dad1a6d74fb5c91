//! Checking a container's hashes, signature and approval.
use vstd::arithmetic::power2::pow2;
use vstd::prelude::*;
use vstd::slice::slice_subrange;
use vstd::string::*;

use crate::bytes::{bytes_eq, push_bytes};
use crate::container::{
    container_fault, is_container, leaf_table, lemma_container_geometry, manifest_bytes, parses_to,
    payload_of, ContainerError,
};
use crate::crypto::{ed25519_accepts, ed25519_verify, sha256, sha256_of};
use crate::format::{
    APPROVAL_APPROVED, APPROVAL_NONE, HEADER_LEN, MFLAG_FULL, MFLAG_SIGNED, SIGNED_LEN,
};
use crate::manifest::Manifest;
use crate::merkle::{hash_views, leaf_hashes, leaves_of, root, root_of};

verus! {

/// The hashes of a list one after another.
pub open spec fn joined(leaves: Seq<Seq<u8>>) -> Seq<u8>
    decreases leaves.len(),
{
    if leaves.len() == 0 {
        Seq::empty()
    } else {
        joined(leaves.drop_last()) + leaves.last()
    }
}

/// Four-byte hashes one after another take four bytes each.
pub proof fn lemma_joined_len(leaves: Seq<Seq<u8>>)
    requires
        forall|i: int| 0 <= i < leaves.len() ==> (#[trigger] leaves[i]).len() == 4,
    ensures
        joined(leaves).len() == 4 * leaves.len(),
    decreases leaves.len(),
{
    if leaves.len() > 0 {
        let rest = leaves.drop_last();
        assert forall|i: int| 0 <= i < rest.len() implies (#[trigger] rest[i]).len() == 4 by {
            assert(rest[i] == leaves[i]);
        }
        lemma_joined_len(rest);
        assert(leaves[leaves.len() - 1].len() == 4);
    }
}

/// Writes hashes one after another.
pub fn leaf_bytes(leaves: &Vec<[u8; 4]>) -> (r: Vec<u8>)
    ensures
        r@ == joined(hash_views(leaves@)),
{
    let mut out: Vec<u8> = Vec::new();
    let mut i: usize = 0;
    let ghost all = hash_views(leaves@);
    while i < leaves.len()
        invariant
            i <= leaves@.len(),
            all == hash_views(leaves@),
            out@ == joined(all.take(i as int)),
        decreases leaves@.len() - i,
    {
        push_bytes(&mut out, &leaves[i]);
        proof {
            let next = all.take(i + 1);
            assert(next.drop_last() =~= all.take(i as int));
            assert(next.last() == leaves@[i as int]@);
        }
        i += 1;
    }
    assert(all.take(i as int) =~= all);
    out
}

/// Something that is wrong with a well-formed container.
#[derive(Clone, Copy, Debug, PartialEq, Eq, Structural)]
pub enum Problem {
    Leaves,
    Root,
    ImageSize,
    ImageHash,
    Signature,
    Approval,
}

impl Problem {
    pub open spec fn message(self) -> Seq<char> {
        match self {
            Problem::Leaves => "payload does not match its Merkle leaves"@,
            Problem::Root => "merkle_root does not match the payload"@,
            Problem::ImageSize => "image_size does not match the full payload"@,
            Problem::ImageHash => "image_hash does not match the full payload"@,
            Problem::Signature => "signature INVALID"@,
            Problem::Approval => "approval is not erased or approved"@,
        }
    }

    /// Writes the problem's message.
    pub fn to_string(&self) -> (s: String)
        ensures
            s@ == self.message(),
    {
        match self {
            Problem::Leaves => String::from_str("payload does not match its Merkle leaves"),
            Problem::Root => String::from_str("merkle_root does not match the payload"),
            Problem::ImageSize => String::from_str("image_size does not match the full payload"),
            Problem::ImageHash => String::from_str("image_hash does not match the full payload"),
            Problem::Signature => String::from_str("signature INVALID"),
            Problem::Approval => String::from_str("approval is not erased or approved"),
        }
    }
}

/// Whether a container with the manifest `m` has a problem.
pub open spec fn has_problem(blob: Seq<u8>, m: Manifest, p: Problem) -> bool {
    let payload = payload_of(blob, m.block_count as int, m.payload_size as int);
    let leaves = leaves_of(payload, m.spec_block_size() as int);
    match p {
        Problem::Leaves => leaf_table(blob, m.block_count as int) != joined(leaves),
        Problem::Root => m.merkle_root@ != root_of(leaves),
        Problem::ImageSize => m.has_flag(MFLAG_FULL) && m.image_size != m.payload_size,
        Problem::ImageHash => m.has_flag(MFLAG_FULL) && m.image_hash@ != sha256_of(payload),
        Problem::Signature => m.has_flag(MFLAG_SIGNED) && !ed25519_accepts(
            m.signer@,
            manifest_bytes(blob).take(SIGNED_LEN as int),
            m.signature@,
        ),
        Problem::Approval => m.approval@ != APPROVAL_NONE@ && m.approval@ != APPROVAL_APPROVED@,
    }
}

/// The problems of a list that a container has, in order.
pub open spec fn present(blob: Seq<u8>, m: Manifest, candidates: Seq<Problem>) -> Seq<Problem>
    decreases candidates.len(),
{
    if candidates.len() == 0 {
        Seq::empty()
    } else {
        let before = present(blob, m, candidates.drop_last());
        if has_problem(blob, m, candidates.last()) {
            before.push(candidates.last())
        } else {
            before
        }
    }
}

/// All problems in the order in which they are reported.
pub open spec fn all_problems() -> Seq<Problem> {
    seq![
        Problem::Leaves,
        Problem::Root,
        Problem::ImageSize,
        Problem::ImageHash,
        Problem::Signature,
        Problem::Approval,
    ]
}

/// What is wrong with a well-formed container.
pub open spec fn problems_of(blob: Seq<u8>, m: Manifest) -> Seq<Problem> {
    present(blob, m, all_problems())
}

/// The views of a list of strings.
pub open spec fn texts(strings: Seq<String>) -> Seq<Seq<char>> {
    Seq::new(strings.len(), |i: int| strings[i]@)
}

/// The messages of a list of problems.
pub open spec fn messages(problems: Seq<Problem>) -> Seq<Seq<char>> {
    Seq::new(problems.len(), |i: int| problems[i].message())
}

/// Checks a well-formed container.
pub fn check_container(blob: &[u8], m: &Manifest) -> (r: Vec<Problem>)
    requires
        is_container(blob@, *m),
    ensures
        r@ == problems_of(blob@, *m),
{
    proof {
        lemma_container_geometry(blob@, *m);
    }
    let mut found: Vec<Problem> = Vec::new();
    let start: usize = m.payload_off();
    let payload = slice_subrange(blob, start, start + m.payload_size as usize);
    let table = slice_subrange(blob, m.leaves_off(), start);
    let signed_part = slice_subrange(blob, HEADER_LEN, HEADER_LEN + SIGNED_LEN);
    proof {
        assert(payload@ == payload_of(blob@, m.block_count as int, m.payload_size as int));
        assert(table@ == leaf_table(blob@, m.block_count as int));
        assert(signed_part@ =~= manifest_bytes(blob@).take(SIGNED_LEN as int));
    }
    let leaves = leaf_hashes(payload, m.block_size() as usize);
    let expected = leaf_bytes(&leaves);
    let ghost c0 = Seq::<Problem>::empty();
    let ghost c1 = c0.push(Problem::Leaves);
    let ghost c2 = c1.push(Problem::Root);
    let ghost c3 = c2.push(Problem::ImageSize);
    let ghost c4 = c3.push(Problem::ImageHash);
    let ghost c5 = c4.push(Problem::Signature);
    let ghost c6 = c5.push(Problem::Approval);
    proof {
        assert(c6 =~= all_problems());
        assert(c1.drop_last() =~= c0 && c2.drop_last() =~= c1 && c3.drop_last() =~= c2);
        assert(c4.drop_last() =~= c3 && c5.drop_last() =~= c4 && c6.drop_last() =~= c5);
        assert(present(blob@, *m, c0) =~= Seq::empty());
    }
    if !bytes_eq(table, expected.as_slice()) {
        found.push(Problem::Leaves);
    }
    assert(found@ == present(blob@, *m, c1));
    let computed = root(leaves.as_slice());
    if !bytes_eq(&m.merkle_root, &computed) {
        found.push(Problem::Root);
    }
    assert(found@ == present(blob@, *m, c2));
    if m.is_full() && m.image_size != m.payload_size {
        found.push(Problem::ImageSize);
    }
    assert(found@ == present(blob@, *m, c3));
    let digest = sha256(payload);
    if m.is_full() && !bytes_eq(&m.image_hash, &digest) {
        found.push(Problem::ImageHash);
    }
    assert(found@ == present(blob@, *m, c4));
    if m.is_signed() && !ed25519_verify(&m.signer, signed_part, &m.signature) {
        found.push(Problem::Signature);
    }
    assert(found@ == present(blob@, *m, c5));
    if !bytes_eq(&m.approval, &APPROVAL_NONE) && !bytes_eq(&m.approval, &APPROVAL_APPROVED) {
        found.push(Problem::Approval);
    }
    assert(found@ == present(blob@, *m, c6));
    found
}

/// What verifying a container reports: nothing where it is sound; the reason where it cannot be
/// parsed; else its problems.
pub open spec fn verifies_to(blob: Seq<u8>, report: Seq<Seq<char>>) -> bool {
    &&& forall|m: Manifest| #[trigger]
        is_container(blob, m) ==> report == messages(problems_of(blob, m))
    &&& (exists|m: Manifest| #[trigger] is_container(blob, m)) || exists|e: ContainerError|
        report == seq![#[trigger] e.message()] && parses_to(blob, Err(e))
}

proof fn lemma_problems_decided(blob: Seq<u8>, a: Manifest, b: Manifest)
    requires
        is_container(blob, a),
        is_container(blob, b),
    ensures
        problems_of(blob, a) == problems_of(blob, b),
{
    reveal(Manifest::reads);
    lemma_present_decided(blob, a, b, all_problems());
}

proof fn lemma_present_decided(blob: Seq<u8>, a: Manifest, b: Manifest, candidates: Seq<Problem>)
    requires
        forall|p: Problem| #[trigger] has_problem(blob, a, p) == has_problem(blob, b, p),
    ensures
        present(blob, a, candidates) == present(blob, b, candidates),
    decreases candidates.len(),
{
    if candidates.len() > 0 {
        lemma_present_decided(blob, a, b, candidates.drop_last());
    }
}

/// Verifies a container and reports everything that is wrong with it.
pub fn verify(blob: &[u8]) -> (r: Vec<String>)
    ensures
        verifies_to(blob@, texts(r@)),
{
    let mut report: Vec<String> = Vec::new();
    match Manifest::parse(blob) {
        Err(e) => {
            report.push(e.to_string());
            proof {
                assert(texts(report@) =~= seq![e.message()]);
                assert forall|m: Manifest| #[trigger] is_container(blob@, m) implies false by {
                    assert(container_fault(blob@, m) is None);
                }
            }
            report
        },
        Ok(m) => {
            let found = check_container(blob, &m);
            let mut i: usize = 0;
            while i < found.len()
                invariant
                    i <= found@.len(),
                    report@.len() == i,
                    forall|k: int| 0 <= k < i ==> (#[trigger] report@[k])@ == found@[k].message(),
                decreases found@.len() - i,
            {
                report.push(found[i].to_string());
                i += 1;
            }
            proof {
                assert(texts(report@) =~= messages(problems_of(blob@, m)));
                assert forall|o: Manifest| #[trigger] is_container(blob@, o) implies texts(report@)
                    == messages(problems_of(blob@, o)) by {
                    lemma_problems_decided(blob@, m, o);
                }
                assert(is_container(blob@, m));
            }
            report
        },
    }
}

/// A container that has no problem has none of a list.
pub proof fn lemma_none_present(blob: Seq<u8>, m: Manifest, candidates: Seq<Problem>)
    requires
        forall|p: Problem| !#[trigger] has_problem(blob, m, p),
    ensures
        present(blob, m, candidates) == Seq::<Problem>::empty(),
    decreases candidates.len(),
{
    if candidates.len() > 0 {
        lemma_none_present(blob, m, candidates.drop_last());
    }
}

/// What is reported of a well-formed container, full or delta. The leaf table must be the leaves of
/// the payload and the root the root over them, always. Size and hash of the image must be those of
/// the payload where the container is full (flag bit 0). The signature must hold over the first 129
/// bytes of the manifest where it is signed (flag bit 1). And the approval is erased or `APRV`.
pub proof fn law_problems_reported(blob: Seq<u8>, m: Manifest)
    requires
        is_container(blob, m),
    ensures
        ({
            let found = problems_of(blob, m);
            let start = 205 + 4 * m.block_count;
            let payload = blob.subrange(start, start + m.payload_size);
            let leaves = leaves_of(payload, pow2(m.block_size_log2 as nat) as int);
            let full = m.flags & 0x01 != 0;
            let signed = m.flags & 0x02 != 0;
            let signature_holds = ed25519_accepts(m.signer@, blob.subrange(8, 137), m.signature@);
            let approved = m.approval@ == seq![0x41u8, 0x50, 0x52, 0x56];
            let erased = m.approval@ == seq![0xFFu8, 0xFF, 0xFF, 0xFF];
            &&& found.contains(Problem::Leaves) <==> blob.subrange(205, start) != joined(leaves)
            &&& found.contains(Problem::Root) <==> m.merkle_root@ != root_of(leaves)
            &&& found.contains(Problem::ImageSize) <==> full && m.image_size != m.payload_size
            &&& found.contains(Problem::ImageHash) <==> full && m.image_hash@ != sha256_of(payload)
            &&& found.contains(Problem::Signature) <==> signed && !signature_holds
            &&& found.contains(Problem::Approval) <==> !approved && !erased
        }),
{
    lemma_container_geometry(blob, m);
    lemma_reported(blob, m);
    let start = 205 + 4 * m.block_count;
    assert(payload_of(blob, m.block_count as int, m.payload_size as int) =~= blob.subrange(
        start,
        start + m.payload_size,
    ));
    assert(leaf_table(blob, m.block_count as int) =~= blob.subrange(205, start));
    assert(manifest_bytes(blob).take(129) =~= blob.subrange(8, 137));
    assert(APPROVAL_APPROVED@ =~= seq![0x41u8, 0x50, 0x52, 0x56]);
    assert(APPROVAL_NONE@ =~= seq![0xFFu8, 0xFF, 0xFF, 0xFF]);
    let all = all_problems();
    assert(all[0] == Problem::Leaves && all[1] == Problem::Root && all[2] == Problem::ImageSize
        && all[3] == Problem::ImageHash && all[4] == Problem::Signature && all[5]
        == Problem::Approval);
    assert(all.contains(Problem::Leaves) && all.contains(Problem::Root) && all.contains(
        Problem::ImageSize,
    ) && all.contains(Problem::ImageHash) && all.contains(Problem::Signature) && all.contains(
        Problem::Approval,
    ));
}

proof fn lemma_reported(blob: Seq<u8>, m: Manifest)
    ensures
        forall|p: Problem| #[trigger]
            problems_of(blob, m).contains(p) <==> all_problems().contains(p) && has_problem(
                blob,
                m,
                p,
            ),
{
    assert forall|p: Problem| #[trigger]
        problems_of(blob, m).contains(p) <==> all_problems().contains(p) && has_problem(
            blob,
            m,
            p,
        ) by {
        lemma_present_contains(blob, m, all_problems(), p);
    }
}

proof fn lemma_present_contains(blob: Seq<u8>, m: Manifest, candidates: Seq<Problem>, p: Problem)
    ensures
        present(blob, m, candidates).contains(p) <==> candidates.contains(p) && has_problem(
            blob,
            m,
            p,
        ),
    decreases candidates.len(),
{
    if candidates.len() > 0 {
        let rest = candidates.drop_last();
        let last = candidates.last();
        let before = present(blob, m, rest);
        lemma_present_contains(blob, m, rest, p);
        assert(candidates =~= rest.push(last));
        lemma_push_contains(rest, last, p);
        lemma_push_contains(before, last, p);
    }
}

proof fn lemma_push_contains(s: Seq<Problem>, x: Problem, p: Problem)
    ensures
        s.push(x).contains(p) <==> s.contains(p) || x == p,
{
    let t = s.push(x);
    if s.contains(p) {
        let i = choose|i: int| 0 <= i < s.len() && s[i] == p;
        assert(t[i] == p);
    }
    assert(t[s.len() as int] == x);
    if t.contains(p) {
        let i = choose|i: int| 0 <= i < t.len() && t[i] == p;
        if i < s.len() {
            assert(s[i] == p);
        }
    }
}

/// A container verifies without a problem exactly where all of this holds: entry `i` of its leaf
/// table is the start of the digest of payload block `i`, for every block; its root is the root over
/// them; a full one has the size and the digest of its payload; a signed one has a valid signature;
/// and its approval is erased or given. Whether it is a full image or a delta makes no difference to
/// the leaves and the root.
pub proof fn law_clean_container(blob: Seq<u8>, m: Manifest, report: Seq<Seq<char>>)
    requires
        is_container(blob, m),
        verifies_to(blob, report),
    ensures
        ({
            let start = 205 + 4 * m.block_count;
            let payload = blob.subrange(start, start + m.payload_size);
            let leaves = leaves_of(payload, pow2(m.block_size_log2 as nat) as int);
            report.len() == 0 <==> {
                &&& leaves.len() == m.block_count
                &&& forall|i: int|
                    0 <= i < m.block_count ==> blob.subrange(205 + 4 * i, 209 + 4 * i)
                        == #[trigger] leaves[i]
                &&& m.merkle_root@ == root_of(leaves)
                &&& m.flags & 0x01 != 0 ==> m.image_size == m.payload_size && m.image_hash@
                    == sha256_of(payload)
                &&& m.flags & 0x02 != 0 ==> ed25519_accepts(
                    m.signer@,
                    blob.subrange(8, 137),
                    m.signature@,
                )
                &&& m.approval@ == seq![0x41u8, 0x50, 0x52, 0x56] || m.approval@ == seq![
                    0xFFu8, 0xFF, 0xFF, 0xFF,
                ]
            }
        }),
{
    let found = problems_of(blob, m);
    let start = 205 + 4 * m.block_count;
    let payload = blob.subrange(start, start + m.payload_size);
    let bs = pow2(m.block_size_log2 as nat) as int;
    let leaves = leaves_of(payload, bs);
    let table = blob.subrange(205, start);
    lemma_container_geometry(blob, m);
    law_problems_reported(blob, m);
    assert(report.len() == found.len());
    assert(leaves.len() == m.block_count);
    lemma_joined_entries(leaves);
    if found.len() == 0 {
        assert(!found.contains(Problem::Leaves) && !found.contains(Problem::Root)
            && !found.contains(Problem::ImageSize) && !found.contains(Problem::ImageHash)
            && !found.contains(Problem::Signature) && !found.contains(Problem::Approval));
        assert forall|i: int| 0 <= i < m.block_count implies blob.subrange(205 + 4 * i, 209 + 4 * i)
            == #[trigger] leaves[i] by {
            assert(blob.subrange(205 + 4 * i, 209 + 4 * i) =~= table.subrange(4 * i, 4 * i + 4));
        }
    }
    if forall|i: int|
        0 <= i < m.block_count ==> blob.subrange(205 + 4 * i, 209 + 4 * i) == #[trigger] leaves[i] {
        let want = joined(leaves);
        assert forall|j: int| 0 <= j < table.len() implies table[j] == want[j] by {
            let i = j / 4;
            assert(blob.subrange(205 + 4 * i, 209 + 4 * i) == leaves[i]);
            assert(table[j] == blob.subrange(205 + 4 * i, 209 + 4 * i)[j - 4 * i]);
            assert(want.subrange(4 * i, 4 * i + 4) == leaves[i]);
            assert(want[j] == want.subrange(4 * i, 4 * i + 4)[j - 4 * i]);
        }
        assert(table =~= want);
    }
    if found.len() > 0 {
        assert(found.contains(found[0]));
        lemma_reported(blob, m);
    }
}

proof fn lemma_joined_entries(leaves: Seq<Seq<u8>>)
    requires
        forall|i: int| 0 <= i < leaves.len() ==> (#[trigger] leaves[i]).len() == 4,
    ensures
        joined(leaves).len() == 4 * leaves.len(),
        forall|i: int|
            0 <= i < leaves.len() ==> joined(leaves).subrange(4 * i, 4 * i + 4) == #[trigger] leaves[i],
    decreases leaves.len(),
{
    lemma_joined_len(leaves);
    if leaves.len() > 0 {
        let rest = leaves.drop_last();
        assert forall|i: int| 0 <= i < rest.len() implies (#[trigger] rest[i]).len() == 4 by {
            assert(rest[i] == leaves[i]);
        }
        lemma_joined_entries(rest);
        let n = rest.len() as int;
        assert(leaves[n].len() == 4);
        assert forall|i: int| 0 <= i < leaves.len() implies joined(leaves).subrange(
            4 * i,
            4 * i + 4,
        ) == #[trigger] leaves[i] by {
            if i < n {
                assert(rest[i] == leaves[i]);
                assert(joined(leaves).subrange(4 * i, 4 * i + 4) =~= joined(rest).subrange(
                    4 * i,
                    4 * i + 4,
                ));
            } else {
                assert(joined(leaves).subrange(4 * i, 4 * i + 4) =~= leaves[i]);
            }
        }
    }
}

/// A damaged payload is found: of two containers that agree in header, manifest and leaf table, but
/// of which some block hashes differently, at most one verifies. So it is for deltas as for full
/// images.
pub proof fn law_damaged_payload_is_found(
    a: Seq<u8>,
    b: Seq<u8>,
    m: Manifest,
    n: Manifest,
    i: int,
    report_a: Seq<Seq<char>>,
    report_b: Seq<Seq<char>>,
)
    requires
        is_container(a, m),
        is_container(b, n),
        verifies_to(a, report_a),
        verifies_to(b, report_b),
        a.take(205 + 4 * m.block_count) == b.take(205 + 4 * m.block_count),
        n.block_count == m.block_count,
        n.block_size_log2 == m.block_size_log2,
        0 <= i < m.block_count,
        ({
            let bs = pow2(m.block_size_log2 as nat) as int;
            let start = 205 + 4 * m.block_count;
            leaves_of(a.subrange(start, start + m.payload_size), bs)[i] != leaves_of(
                b.subrange(start, start + n.payload_size),
                bs,
            )[i]
        }),
    ensures
        report_a.len() > 0 || report_b.len() > 0,
{
    if report_a.len() == 0 && report_b.len() == 0 {
        law_clean_container(a, m, report_a);
        law_clean_container(b, n, report_b);
        lemma_container_geometry(a, m);
        lemma_container_geometry(b, n);
        let head = a.take(205 + 4 * m.block_count);
        assert(a.subrange(205 + 4 * i, 209 + 4 * i) =~= head.subrange(205 + 4 * i, 209 + 4 * i));
        assert(b.subrange(205 + 4 * i, 209 + 4 * i) =~= head.subrange(205 + 4 * i, 209 + 4 * i));
    }
}

/// What cannot be parsed is reported: a blob that is no container is never clean.
pub proof fn law_unparsable_is_reported(blob: Seq<u8>, report: Seq<Seq<char>>)
    requires
        verifies_to(blob, report),
        report.len() == 0,
    ensures
        exists|m: Manifest| is_container(blob, m),
{
}

} // verus!
