//! Writing a manifest and a container as bytes.
use vstd::prelude::*;

use crate::bytes::{le32_bytes, lemma_le32_field, push_bytes, push_u32, window};
use crate::container::{framing_fault, leaf_table, manifest_bytes, payload_of};
use crate::format::{HEADER_LEN, MAGIC, MFL, SIGNED_LEN, TRAILER, TRAILER_LEN};
use crate::manifest::Manifest;

verus! {

broadcast use crate::bytes::lemma_le32_len;

/// The part of a manifest that a signature covers.
#[verifier::opaque]
pub open spec fn encoded_head(m: Manifest) -> Seq<u8> {
    seq![m.format_ver, m.flags, m.hash_algo] + le32_bytes(m.target_id) + le32_bytes(m.fw_version)
        + le32_bytes(m.image_size) + le32_bytes(m.payload_size) + seq![m.block_size_log2]
        + m.merkle_root@ + m.image_hash@ + seq![m.codec_id] + m.hw_id@ + m.base_hash@ + m.signer@
}

/// The 197 bytes of a manifest.
#[verifier::opaque]
pub open spec fn encoded_manifest(m: Manifest) -> Seq<u8> {
    encoded_head(m) + m.signature@ + m.approval@
}

/// Writes the part of a manifest that a signature covers.
pub fn encode_head(m: &Manifest) -> (r: Vec<u8>)
    ensures
        r@ == encoded_head(*m),
{
    let mut b: Vec<u8> = Vec::new();
    b.push(m.format_ver);
    b.push(m.flags);
    b.push(m.hash_algo);
    push_u32(&mut b, m.target_id);
    push_u32(&mut b, m.fw_version);
    push_u32(&mut b, m.image_size);
    push_u32(&mut b, m.payload_size);
    b.push(m.block_size_log2);
    push_bytes(&mut b, &m.merkle_root);
    push_bytes(&mut b, &m.image_hash);
    b.push(m.codec_id);
    push_bytes(&mut b, &m.hw_id);
    push_bytes(&mut b, &m.base_hash);
    push_bytes(&mut b, &m.signer);
    proof {
        reveal(encoded_head);
        assert(b@ =~= encoded_head(*m));
    }
    b
}

proof fn lemma_head_windows(m: Manifest)
    ensures
        ({
            let h = encoded_head(m);
            &&& h.len() == SIGNED_LEN
            &&& h[0] == m.format_ver
            &&& h[1] == m.flags
            &&& h[2] == m.hash_algo
            &&& window(h, 3, 4) == le32_bytes(m.target_id)
            &&& window(h, 7, 4) == le32_bytes(m.fw_version)
            &&& window(h, 11, 4) == le32_bytes(m.image_size)
            &&& window(h, 15, 4) == le32_bytes(m.payload_size)
            &&& h[19] == m.block_size_log2
            &&& window(h, 20, 4) == m.merkle_root@
            &&& window(h, 24, 32) == m.image_hash@
            &&& h[56] == m.codec_id
            &&& window(h, 57, 32) == m.hw_id@
            &&& window(h, 89, 8) == m.base_hash@
            &&& window(h, 97, 32) == m.signer@
        }),
{
    reveal(encoded_head);
    let h = encoded_head(m);
    assert(window(h, 3, 4) =~= le32_bytes(m.target_id));
    assert(window(h, 7, 4) =~= le32_bytes(m.fw_version));
    assert(window(h, 11, 4) =~= le32_bytes(m.image_size));
    assert(window(h, 15, 4) =~= le32_bytes(m.payload_size));
    assert(window(h, 20, 4) =~= m.merkle_root@);
    assert(window(h, 24, 32) =~= m.image_hash@);
    assert(window(h, 57, 32) =~= m.hw_id@);
    assert(window(h, 89, 8) =~= m.base_hash@);
    assert(window(h, 97, 32) =~= m.signer@);
}

/// A manifest that is written reads back field for field.
pub proof fn law_manifest_reads_back(m: Manifest)
    ensures
        encoded_manifest(m).len() == MFL,
        encoded_manifest(m).take(SIGNED_LEN as int) == encoded_head(m),
        m.reads(encoded_manifest(m)),
{
    reveal(encoded_manifest);
    reveal(Manifest::reads);
    lemma_head_windows(m);
    let h = encoded_head(m);
    let e = encoded_manifest(m);
    assert(e.take(SIGNED_LEN as int) =~= h);
    assert forall|a: int, n: int| 0 <= a && 0 <= n && a + n <= SIGNED_LEN implies #[trigger] window(
        e,
        a,
        n,
    ) == window(h, a, n) by {
        assert(window(e, a, n) =~= window(h, a, n));
    }
    assert(e[0] == h[0] && e[1] == h[1] && e[2] == h[2] && e[19] == h[19] && e[56] == h[56]);
    lemma_le32_field(e, 3, m.target_id);
    lemma_le32_field(e, 7, m.fw_version);
    lemma_le32_field(e, 11, m.image_size);
    lemma_le32_field(e, 15, m.payload_size);
    assert(window(e, 129, 64) =~= m.signature@);
    assert(window(e, 193, 4) =~= m.approval@);
}

/// The length of a container.
pub open spec fn container_len(table: Seq<u8>, payload: Seq<u8>) -> int {
    HEADER_LEN + MFL + table.len() + payload.len() + TRAILER_LEN
}

/// A container: magic, total length, manifest, leaf table, payload and trailer.
#[verifier::opaque]
pub open spec fn container_bytes(m: Manifest, table: Seq<u8>, payload: Seq<u8>) -> Seq<u8> {
    MAGIC@ + le32_bytes(container_len(table, payload) as u32) + encoded_manifest(m) + table
        + payload + TRAILER@
}

/// Writes a container.
pub fn encode_container(m: &Manifest, table: &[u8], payload: &[u8]) -> (r: Vec<u8>)
    requires
        container_len(table@, payload@) <= u32::MAX,
    ensures
        r@ == container_bytes(*m, table@, payload@),
{
    let total: usize = HEADER_LEN + MFL + table.len() + payload.len() + TRAILER_LEN;
    let mut b: Vec<u8> = Vec::new();
    push_bytes(&mut b, &MAGIC);
    push_u32(&mut b, total as u32);
    let head = encode_head(m);
    push_bytes(&mut b, head.as_slice());
    push_bytes(&mut b, &m.signature);
    push_bytes(&mut b, &m.approval);
    push_bytes(&mut b, table);
    push_bytes(&mut b, payload);
    push_bytes(&mut b, &TRAILER);
    proof {
        reveal(encoded_manifest);
        reveal(container_bytes);
        assert(b@ =~= container_bytes(*m, table@, payload@));
    }
    b
}

/// A container that is written reads back: its framing holds, and manifest, leaf table and payload
/// are found where they were put.
pub proof fn law_container_reads_back(m: Manifest, table: Seq<u8>, payload: Seq<u8>, count: int)
    requires
        container_len(table, payload) <= u32::MAX,
        0 <= count,
        table.len() == 4 * count,
    ensures
        ({
            let blob = container_bytes(m, table, payload);
            &&& blob.len() == container_len(table, payload)
            &&& framing_fault(blob) is None
            &&& manifest_bytes(blob) == encoded_manifest(m)
            &&& leaf_table(blob, count) == table
            &&& payload_of(blob, count, payload.len() as int) == payload
        }),
{
    reveal(container_bytes);
    law_manifest_reads_back(m);
    let blob = container_bytes(m, table, payload);
    let total = container_len(table, payload) as u32;
    assert(window(blob, 0, 4) =~= MAGIC@);
    assert(window(blob, 4, 4) =~= le32_bytes(total));
    lemma_le32_field(blob, 4, total);
    assert(window(blob, blob.len() - TRAILER_LEN, TRAILER_LEN as int) =~= TRAILER@);
    assert(manifest_bytes(blob) =~= encoded_manifest(m));
    assert(leaf_table(blob, count) =~= table);
    assert(payload_of(blob, count, payload.len() as int) =~= payload);
}

} // verus!
