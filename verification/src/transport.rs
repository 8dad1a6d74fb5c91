//! Exact transport-DEFLATE sizing with the same encoder as the folder seeder.
use flate2::write::DeflateEncoder;
use flate2::Compression;
use std::io::Write;
use vstd::arithmetic::div_mod::{lemma_fundamental_div_mod, lemma_fundamental_div_mod_converse};
use vstd::arithmetic::power2::{lemma2_to64, pow2};
use vstd::prelude::*;
use vstd::slice::slice_subrange;

use crate::format::MAX_APPLICATION_BLOCK_SIZE;

verus! {

/// Largest logical application block that the radio transport supports.
pub const MAX_TRANSPORT_BLOCK_SIZE: usize = MAX_APPLICATION_BLOCK_SIZE as usize;

/// The payload bytes of one radio DATA slice.
pub const DATA_SLICE: usize = 171;

/// Statistics for the route planner. Each logical block is an independent raw RFC 1951 stream, as in
/// the seeder's `OP_DEFLATE_BLOCK`.
#[derive(Clone, Debug, Eq, PartialEq, Structural)]
pub struct DeflateTransportSize {
    pub payload_bytes: usize,
    pub block_size: usize,
    pub block_count: usize,
    /// Bytes carried in DATA after choosing compressed bytes only when smaller.
    pub wire_bytes: usize,
    /// Compressed-stream bytes for blocks which actually use DEFLATE.
    pub deflate_bytes: usize,
    pub deflate_blocks: usize,
    /// Number of 171-byte radio DATA slices after making the per-block choice.
    pub data_packets: usize,
}

/// The raw RFC 1951 stream of a byte string at the best compression level; nothing where the
/// encoder fails.
pub uninterp spec fn deflated(input: Seq<u8>) -> Option<Seq<u8>>;

/// An optional byte vector by its view.
pub open spec fn bytes_option(v: Option<Vec<u8>>) -> Option<Seq<u8>> {
    match v {
        Some(v) => Some(v@),
        None => None,
    }
}

/// `flate2::write::DeflateEncoder` at `Compression::best`, fed `input` in one write and finished,
/// gives one raw stream in memory that depends on `input` alone, or reports that it failed.
#[verifier::external_body]
pub(crate) fn deflate_raw(input: &[u8]) -> (r: Option<Vec<u8>>)
    ensures
        bytes_option(r) == deflated(input@),
{
    let mut encoder = DeflateEncoder::new(Vec::new(), Compression::best());
    encoder.write_all(input).ok()?;
    encoder.finish().ok()
}

/// The sums over a payload's blocks.
pub struct Totals {
    pub blocks: int,
    pub wire_bytes: int,
    pub deflate_bytes: int,
    pub deflate_blocks: int,
    pub data_packets: int,
}

/// Whether a block travels compressed: only where its stream is not empty and shorter.
pub open spec fn travels_compressed(block_len: int, encoded_len: int) -> bool {
    0 < encoded_len < block_len
}

/// The bytes that a block takes on the wire.
pub open spec fn wire_len(block_len: int, encoded_len: int) -> int {
    if travels_compressed(block_len, encoded_len) {
        encoded_len
    } else {
        block_len
    }
}

/// The sums with one more block.
pub open spec fn with_block(t: Totals, block_len: int, encoded_len: int) -> Totals {
    let compressed = travels_compressed(block_len, encoded_len);
    let wire = wire_len(block_len, encoded_len);
    Totals {
        blocks: t.blocks + 1,
        wire_bytes: t.wire_bytes + wire,
        deflate_bytes: t.deflate_bytes + if compressed {
            encoded_len
        } else {
            0
        },
        deflate_blocks: t.deflate_blocks + if compressed {
            1int
        } else {
            0
        },
        data_packets: t.data_packets + (wire + 170) / 171,
    }
}

/// Block `i` of a payload cut into blocks of `block_size`; the last one may be shorter.
pub open spec fn block_at(payload: Seq<u8>, block_size: int, i: int) -> Seq<u8> {
    let start = i * block_size;
    payload.subrange(
        start,
        if start + block_size <= payload.len() {
            start + block_size
        } else {
            payload.len() as int
        },
    )
}

/// The number of blocks in a payload.
pub open spec fn block_count(len: int, block_size: int) -> int {
    (len + block_size - 1) / block_size
}

/// The sums over the first `k` blocks of a payload; nothing where the encoder fails on one of them.
pub open spec fn measure(payload: Seq<u8>, block_size: int, k: int) -> Option<Totals>
    decreases k,
{
    if k <= 0 {
        Some(
            Totals {
                blocks: 0,
                wire_bytes: 0,
                deflate_bytes: 0,
                deflate_blocks: 0,
                data_packets: 0,
            },
        )
    } else {
        let block = block_at(payload, block_size, k - 1);
        match (measure(payload, block_size, k - 1), deflated(block)) {
            (Some(t), Some(encoded)) => Some(
                with_block(t, block.len() as int, encoded.len() as int),
            ),
            _ => None,
        }
    }
}

/// The powers of two that a transport block size may be.
pub open spec fn is_transport_block_size(n: int) -> bool {
    n == 2 || n == 4 || n == 8 || n == 16 || n == 32 || n == 64 || n == 128 || n == 256 || n == 512
        || n == 1024 || n == 2048
}

impl DeflateTransportSize {
    /// The sums in the statistics, with the number of blocks counted so far.
    pub open spec fn totals(self, blocks: int) -> Totals {
        Totals {
            blocks,
            wire_bytes: self.wire_bytes as int,
            deflate_bytes: self.deflate_bytes as int,
            deflate_blocks: self.deflate_blocks as int,
            data_packets: self.data_packets as int,
        }
    }

    /// Adds one block of `block_len` bytes whose raw stream is `encoded`. Fails where a sum would
    /// not fit.
    pub fn add_block(&mut self, block_len: usize, encoded: &[u8]) -> (r: Result<(), &'static str>)
        ensures
            final(self).payload_bytes == old(self).payload_bytes,
            final(self).block_size == old(self).block_size,
            final(self).block_count == old(self).block_count,
            ({
                let next = with_block(old(self).totals(0), block_len as int, encoded@.len() as int);
                let fits = next.wire_bytes <= usize::MAX && next.deflate_bytes <= usize::MAX
                    && next.deflate_blocks <= usize::MAX && next.data_packets <= usize::MAX;
                match r {
                    Ok(_) => fits && final(self).totals(1) == next,
                    Err(e) => !fits && e@ == "transport size overflow"@ && *final(self) == *old(
                        self,
                    ),
                }
            }),
    {
        let compressed = encoded.len() > 0 && encoded.len() < block_len;
        let wire: usize = if compressed {
            encoded.len()
        } else {
            block_len
        };
        let packets: usize = wire / DATA_SLICE + if wire % DATA_SLICE == 0 {
            0
        } else {
            1
        };
        let (deflate_bytes, deflate_blocks) = if compressed {
            (self.deflate_bytes.checked_add(encoded.len()), self.deflate_blocks.checked_add(1))
        } else {
            (Some(self.deflate_bytes), Some(self.deflate_blocks))
        };
        match (
            deflate_bytes,
            deflate_blocks,
            self.wire_bytes.checked_add(wire),
            self.data_packets.checked_add(packets),
        ) {
            (Some(deflate_bytes), Some(deflate_blocks), Some(wire_bytes), Some(data_packets)) => {
                self.deflate_bytes = deflate_bytes;
                self.deflate_blocks = deflate_blocks;
                self.wire_bytes = wire_bytes;
                self.data_packets = data_packets;
                Ok(())
            },
            _ => Err("transport size overflow"),
        }
    }
}

proof fn lemma_measure_fails(payload: Seq<u8>, block_size: int, k: int, n: int)
    requires
        0 <= k <= n,
        measure(payload, block_size, k) is None,
    ensures
        measure(payload, block_size, n) is None,
    decreases n - k,
{
    if k < n {
        lemma_measure_fails(payload, block_size, k, n - 1);
    }
}

proof fn lemma_block_count(len: int, block_size: int, k: int)
    requires
        block_size > 0,
        (k - 1) * block_size < len <= k * block_size,
    ensures
        block_count(len, block_size) == k,
{
    let r = len + block_size - 1 - k * block_size;
    assert((k - 1) * block_size == k * block_size - block_size) by (nonlinear_arith);
    lemma_fundamental_div_mod_converse(len + block_size - 1, block_size, k, r);
}

/// Measures the representation that the live folder seeder selects for each block.
pub fn deflate_transport_size(payload: &[u8], block_size: usize) -> (r: Result<
    DeflateTransportSize,
    &'static str,
>)
    ensures
        match r {
            Ok(size) => {
                let count = block_count(payload@.len() as int, block_size as int);
                &&& payload@.len() > 0
                &&& is_transport_block_size(block_size as int)
                &&& size.payload_bytes == payload@.len()
                &&& size.block_size == block_size
                &&& size.block_count == count
                &&& measure(payload@, block_size as int, count) == Some(size.totals(count))
            },
            Err(e) => if payload@.len() == 0 {
                e@ == "payload is empty"@
            } else if !is_transport_block_size(block_size as int) {
                e@ == "block size must be a power of two between 2 and 2048 bytes"@
            } else {
                &&& e@ == "raw DEFLATE encoder failed"@
                &&& measure(
                    payload@,
                    block_size as int,
                    block_count(payload@.len() as int, block_size as int),
                ) is None
            },
        },
{
    if payload.len() == 0 {
        return Err("payload is empty");
    }
    if !(block_size == 2 || block_size == 4 || block_size == 8 || block_size == 16 || block_size
        == 32 || block_size == 64 || block_size == 128 || block_size == 256 || block_size == 512
        || block_size == 1024 || block_size == MAX_TRANSPORT_BLOCK_SIZE) {
        return Err("block size must be a power of two between 2 and 2048 bytes");
    }
    let len: usize = payload.len();
    let mut size = DeflateTransportSize {
        payload_bytes: len,
        block_size,
        block_count: 0,
        wire_bytes: 0,
        deflate_bytes: 0,
        deflate_blocks: 0,
        data_packets: 0,
    };
    let mut pos: usize = 0;
    let ghost bs: int = block_size as int;
    while pos < len
        invariant
            len == payload@.len(),
            0 < len,
            block_size == bs,
            is_transport_block_size(bs),
            pos <= len,
            size.payload_bytes == len,
            size.block_size == block_size,
            size.block_count <= pos,
            pos == size.block_count * bs || pos == len && (size.block_count - 1) * bs < len
                <= size.block_count * bs,
            measure(payload@, bs, size.block_count as int) == Some(
                size.totals(size.block_count as int),
            ),
            size.wire_bytes <= pos,
            size.deflate_bytes <= pos,
            size.deflate_blocks <= pos,
            size.data_packets <= pos,
        decreases len - pos,
    {
        let ghost k = size.block_count as int;
        let end: usize = if len - pos <= block_size {
            len
        } else {
            pos + block_size
        };
        let block = slice_subrange(payload, pos, end);
        assert((k + 1) * bs == k * bs + bs) by (nonlinear_arith);
        assert(block@ == block_at(payload@, bs, k));
        let encoded = match deflate_raw(block) {
            Some(encoded) => encoded,
            None => {
                proof {
                    let count = block_count(len as int, bs);
                    lemma_count_above(len as int, bs, k);
                    lemma_measure_fails(payload@, bs, k + 1, count);
                }
                return Err("raw DEFLATE encoder failed");
            },
        };
        match size.add_block(block.len(), encoded.as_slice()) {
            Ok(_) => {},
            Err(e) => {
                return Err(e);
            },
        }
        size.block_count = size.block_count + 1;
        pos = end;
    }
    proof {
        let k = size.block_count as int;
        assert((k - 1) * bs == k * bs - bs) by (nonlinear_arith);
        lemma_block_count(len as int, bs, k);
    }
    Ok(size)
}

proof fn lemma_count_above(len: int, block_size: int, k: int)
    requires
        block_size > 0,
        k * block_size < len,
    ensures
        k + 1 <= block_count(len, block_size),
{
    let q = block_count(len, block_size);
    let x = len + block_size - 1;
    lemma_fundamental_div_mod(x, block_size);
    let r = x % block_size;
    assert(x == block_size * q + r);
    if q <= k {
        assert(block_size * q <= k * block_size) by (nonlinear_arith)
            requires
                q <= k,
                block_size > 0,
        ;
    }
}

/// Choosing per block never costs bytes: the wire carries at most the bytes of the blocks, every
/// compressed byte is a wire byte, and the DATA slices hold all of them.
pub proof fn law_wire_bounded_by_payload(payload: Seq<u8>, block_size: int, k: int)
    requires
        block_size > 0,
        0 <= k <= block_count(payload.len() as int, block_size),
        measure(payload, block_size, k) is Some,
    ensures
        ({
            let t = measure(payload, block_size, k)->0;
            &&& t.blocks == k
            &&& 0 <= t.deflate_blocks <= k
            &&& 0 <= t.deflate_bytes <= t.wire_bytes <= payload.len()
            &&& t.wire_bytes <= t.data_packets * DATA_SLICE
            &&& t.wire_bytes <= k * block_size
        }),
    decreases k,
{
    if k > 0 {
        law_wire_bounded_by_payload(payload, block_size, k - 1);
        lemma_block_starts_inside(payload.len() as int, block_size, k - 1);
        let block = block_at(payload, block_size, k - 1);
        let t = measure(payload, block_size, k - 1)->0;
        let wire = wire_len(block.len() as int, deflated(block)->0.len() as int);
        assert(k * block_size == (k - 1) * block_size + block_size) by (nonlinear_arith);
        assert(block.len() <= block_size);
    }
}

/// A counted block starts inside the payload.
pub proof fn lemma_block_starts_inside(len: int, block_size: int, i: int)
    requires
        block_size > 0,
        0 <= i < block_count(len, block_size),
    ensures
        0 <= i * block_size < len,
{
    let q = block_count(len, block_size);
    let x = len + block_size - 1;
    lemma_fundamental_div_mod(x, block_size);
    let r = x % block_size;
    assert(x == block_size * q + r);
    assert(i * block_size + block_size <= block_size * q) by (nonlinear_arith)
        requires
            i + 1 <= q,
            block_size > 0,
    ;
    assert(0 <= i * block_size) by (nonlinear_arith)
        requires
            0 <= i,
            block_size > 0,
    ;
}

/// Every block is a stream of its own: the sums over the first `k` full blocks are those of a
/// payload that ends there, whatever follows.
pub proof fn law_blocks_are_independent(payload: Seq<u8>, block_size: int, k: int)
    requires
        block_size > 0,
        0 <= k,
        k * block_size <= payload.len(),
    ensures
        measure(payload.take(k * block_size), block_size, k) == measure(payload, block_size, k),
{
    lemma_measure_of_prefix(payload, block_size, k, k);
}

proof fn lemma_measure_of_prefix(payload: Seq<u8>, block_size: int, k: int, n: int)
    requires
        block_size > 0,
        0 <= k <= n,
        n * block_size <= payload.len(),
    ensures
        measure(payload.take(n * block_size), block_size, k) == measure(payload, block_size, k),
    decreases k,
{
    if k > 0 {
        lemma_measure_of_prefix(payload, block_size, k - 1, n);
        assert(0 <= (k - 1) * block_size && (k - 1) * block_size + block_size <= n * block_size)
            by (nonlinear_arith)
            requires
                0 < k <= n,
                block_size > 0,
        ;
        assert(block_at(payload.take(n * block_size), block_size, k - 1) =~= block_at(
            payload,
            block_size,
            k - 1,
        ));
    }
}

/// The sums of two payloads together.
pub open spec fn totals_sum(a: Totals, b: Totals) -> Totals {
    Totals {
        blocks: a.blocks + b.blocks,
        wire_bytes: a.wire_bytes + b.wire_bytes,
        deflate_bytes: a.deflate_bytes + b.deflate_bytes,
        deflate_blocks: a.deflate_blocks + b.deflate_blocks,
        data_packets: a.data_packets + b.data_packets,
    }
}

/// Sizes add up when payloads are joined at a block boundary: of `ka` full blocks and what follows
/// them, each sum is that of the two parts.
pub proof fn law_sizes_add_up(a: Seq<u8>, b: Seq<u8>, block_size: int, ka: int)
    requires
        block_size > 0,
        ka >= 0,
        a.len() == ka * block_size,
    ensures
        ({
            let kb = block_count(b.len() as int, block_size);
            &&& block_count((a + b).len() as int, block_size) == ka + kb
            &&& measure(a + b, block_size, ka + kb) == match (
                measure(a, block_size, ka),
                measure(b, block_size, kb),
            ) {
                (Some(x), Some(y)) => Some(totals_sum(x, y)),
                _ => None,
            }
        }),
{
    let kb = block_count(b.len() as int, block_size);
    let x = b.len() + block_size - 1;
    lemma_fundamental_div_mod(x, block_size);
    assert(0 <= kb) by (nonlinear_arith)
        requires
            kb == x / block_size,
            x >= 0,
            block_size > 0,
    ;
    assert((a + b).len() + block_size - 1 == (ka + kb) * block_size + x % block_size)
        by (nonlinear_arith)
        requires
            (a + b).len() == ka * block_size + b.len(),
            x == b.len() + block_size - 1,
            x == block_size * kb + x % block_size,
    ;
    lemma_fundamental_div_mod_converse(
        (a + b).len() + block_size - 1,
        block_size,
        ka + kb,
        x % block_size,
    );
    lemma_sizes_add_up(a, b, block_size, ka, kb);
}

proof fn lemma_sizes_add_up(a: Seq<u8>, b: Seq<u8>, block_size: int, ka: int, kb: int)
    requires
        block_size > 0,
        ka >= 0,
        a.len() == ka * block_size,
        0 <= kb <= block_count(b.len() as int, block_size),
    ensures
        measure(a + b, block_size, ka + kb) == match (
            measure(a, block_size, ka),
            measure(b, block_size, kb),
        ) {
            (Some(x), Some(y)) => Some(totals_sum(x, y)),
            _ => None,
        },
    decreases kb,
{
    if kb == 0 {
        law_blocks_are_independent(a + b, block_size, ka);
        assert((a + b).take(ka * block_size) =~= a);
    } else {
        lemma_sizes_add_up(a, b, block_size, ka, kb - 1);
        lemma_block_starts_inside(b.len() as int, block_size, kb - 1);
        assert((ka + kb - 1) * block_size == ka * block_size + (kb - 1) * block_size)
            by (nonlinear_arith);
        assert(block_at(a + b, block_size, ka + kb - 1) =~= block_at(b, block_size, kb - 1));
        assert(ka + kb - 1 == ka + (kb - 1));
    }
}

/// The bytes of the first `k` blocks of a payload.
pub open spec fn covered(len: int, block_size: int, k: int) -> int {
    if k * block_size <= len {
        k * block_size
    } else {
        len
    }
}

/// What the sums of a whole payload say of each other: every block takes a DATA slice, the wire is
/// shorter than the payload exactly where some block travels compressed, and there are compressed
/// bytes exactly where there are compressed blocks.
pub proof fn law_sums_agree(payload: Seq<u8>, block_size: int)
    requires
        block_size > 0,
        measure(payload, block_size, block_count(payload.len() as int, block_size)) is Some,
    ensures
        ({
            let count = block_count(payload.len() as int, block_size);
            let t = measure(payload, block_size, count)->0;
            &&& count <= t.data_packets
            &&& t.wire_bytes < payload.len() <==> t.deflate_blocks > 0
            &&& t.deflate_blocks == 0 <==> t.deflate_bytes == 0
        }),
{
    let len = payload.len() as int;
    let count = block_count(len, block_size);
    let x = len + block_size - 1;
    lemma_fundamental_div_mod(x, block_size);
    assert(0 <= count && len <= count * block_size) by (nonlinear_arith)
        requires
            count == x / block_size,
            x == block_size * count + x % block_size,
            0 <= x % block_size < block_size,
            x == len + block_size - 1,
            len >= 0,
            block_size > 0,
    ;
    lemma_sums_agree(payload, block_size, count);
}

proof fn lemma_sums_agree(payload: Seq<u8>, block_size: int, k: int)
    requires
        block_size > 0,
        0 <= k <= block_count(payload.len() as int, block_size),
        measure(payload, block_size, k) is Some,
    ensures
        ({
            let t = measure(payload, block_size, k)->0;
            &&& k <= t.data_packets
            &&& 0 <= t.deflate_blocks
            &&& 0 <= t.deflate_bytes
            &&& t.wire_bytes <= covered(payload.len() as int, block_size, k)
            &&& t.wire_bytes < covered(payload.len() as int, block_size, k) <==> t.deflate_blocks
                > 0
            &&& t.deflate_blocks == 0 <==> t.deflate_bytes == 0
        }),
    decreases k,
{
    if k > 0 {
        lemma_sums_agree(payload, block_size, k - 1);
        lemma_block_starts_inside(payload.len() as int, block_size, k - 1);
        assert(k * block_size == (k - 1) * block_size + block_size) by (nonlinear_arith);
        let block = block_at(payload, block_size, k - 1);
        assert(block.len() == covered(payload.len() as int, block_size, k) - covered(
            payload.len() as int,
            block_size,
            k - 1,
        ));
        assert(block.len() >= 1);
    } else {
        assert(0 * block_size == 0) by (nonlinear_arith);
    }
}

/// What one block adds to the sums. It travels compressed exactly where its stream is not empty and
/// shorter than the block, and then adds the stream's bytes, else its own. The DATA slices it adds are
/// the fewest of 171 bytes that hold what travels.
pub proof fn law_block_adds(t: Totals, block_len: int, encoded_len: int)
    requires
        0 <= block_len,
        0 <= encoded_len,
    ensures
        ({
            let next = with_block(t, block_len, encoded_len);
            let compressed = 0 < encoded_len && encoded_len < block_len;
            let wire = next.wire_bytes - t.wire_bytes;
            let slices = next.data_packets - t.data_packets;
            &&& next.blocks == t.blocks + 1
            &&& compressed ==> wire == encoded_len && next.deflate_bytes == t.deflate_bytes
                + encoded_len && next.deflate_blocks == t.deflate_blocks + 1
            &&& !compressed ==> wire == block_len && next.deflate_bytes == t.deflate_bytes
                && next.deflate_blocks == t.deflate_blocks
            &&& (slices - 1) * 171 < wire <= slices * 171
        }),
{
}

/// The sums over `k + 1` blocks are those over `k` with the block of the bytes from `k * block_size`
/// on, compressed by itself; there are none where the encoder fails on a block.
pub proof fn law_measured_block_by_block(payload: Seq<u8>, block_size: int, k: int)
    requires
        block_size > 0,
        0 <= k,
        k * block_size < payload.len(),
    ensures
        ({
            let start = k * block_size;
            let end = if start + block_size < payload.len() {
                start + block_size
            } else {
                payload.len() as int
            };
            let block = payload.subrange(start, end);
            measure(payload, block_size, k + 1) == match (
                measure(payload, block_size, k),
                deflated(block),
            ) {
                (Some(t), Some(stream)) => Some(with_block(t, end - start, stream.len() as int)),
                _ => None,
            }
        }),
        measure(payload, block_size, 0) matches Some(t) && t.blocks == 0 && t.wire_bytes == 0
            && t.deflate_bytes == 0 && t.deflate_blocks == 0 && t.data_packets == 0,
{
    assert(k + 1 - 1 == k);
    let start = k * block_size;
    assert(0 <= start) by (nonlinear_arith)
        requires
            0 <= k,
            block_size > 0,
            start == k * block_size,
    ;
}

/// A payload makes the fewest blocks that cover it.
pub proof fn law_block_count_covers(len: int, block_size: int)
    requires
        0 <= len,
        0 < block_size,
    ensures
        ({
            let count = block_count(len, block_size);
            (count - 1) * block_size < len <= count * block_size
        }),
{
    let q = block_count(len, block_size);
    lemma_fundamental_div_mod(len + block_size - 1, block_size);
    assert((q - 1) * block_size == block_size * q - block_size && q * block_size == block_size * q)
        by (nonlinear_arith);
}

/// The block sizes of the transport are the powers of two from 2 to 2048.
pub proof fn law_transport_block_sizes(n: int)
    ensures
        is_transport_block_size(n) <==> exists|k: nat| 1 <= k <= 11 && n == #[trigger] pow2(k),
{
    lemma2_to64();
    assert(pow2(1) == 2 && pow2(2) == 4 && pow2(3) == 8 && pow2(4) == 16 && pow2(5) == 32 && pow2(6)
        == 64 && pow2(7) == 128 && pow2(8) == 256 && pow2(9) == 512 && pow2(10) == 1024 && pow2(11)
        == 2048);
    if exists|k: nat| 1 <= k <= 11 && n == #[trigger] pow2(k) {
        let k = choose|k: nat| 1 <= k <= 11 && n == #[trigger] pow2(k);
        assert(k == 1 || k == 2 || k == 3 || k == 4 || k == 5 || k == 6 || k == 7 || k == 8 || k
            == 9 || k == 10 || k == 11);
    }
}

} // verus!
