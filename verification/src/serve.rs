//! Serving a folder of `.mota` to a node, and capturing a `.mota` that the node fetches off-mesh.
//!
//! [`SeederCore`] turns an `(op, args)` request into what is to be done: a reply to send, or a
//! storage operation to perform and answer. It knows nothing of the transport.
use vstd::arithmetic::power2::{lemma2_to64, lemma_pow2_strictly_increases, pow2};
use vstd::prelude::*;
use vstd::slice::{slice_subrange, slice_to_vec};
use vstd::string::*;

use crate::bytes::{
    le16_at, le16_bytes, le32_at, le32_bytes, lemma_le32_field, low32, push_bytes, push_u16,
    push_u32, rd_u16, rd_u32, window, window_eq,
};
use crate::container::{
    is_container, law_parse_is_deterministic, lemma_container_geometry, parses_to, payload_of,
    ContainerError,
};
use crate::format::{Manifest, HEADER_LEN, MAGIC, MAX_APPLICATION_BLOCK_SIZE, MFL, TRAILER_LEN};
use crate::order::{
    components, lemma_path_irreflexive, lemma_path_total, lemma_path_transitive, path_before,
    path_is_before,
};
use crate::seeder::{
    DEFLATE_READ_MAX, DESC_WIRE, OP_BEGIN, OP_COUNT, OP_DEFLATE_BLOCK, OP_DESCRIBE, OP_FIN, OP_READ,
    OP_SREAD, OP_STAT, OP_WRITE, SOURCE_CAP_DEFLATE_BLOCK, STATUS_ERR, STATUS_OK,
};
use crate::text::{bytes_hex_lower, hex_encode};
use crate::transport::{
    block_at, deflate_raw, deflated, lemma_block_starts_inside, travels_compressed,
};
use crate::verify::{messages, problems_of, texts, verifies_to, verify};

verus! {

broadcast use crate::bytes::lemma_le32_len;

/// `std::path::PathBuf`, carried through as an opaque value.
#[verifier::external_type_specification]
#[verifier::external_body]
pub struct ExPathBuf(std::path::PathBuf);

/// One container of a served folder.
pub struct ServedMota {
    /// The components of the file's path, each as the bytes of its name.
    pub path: Vec<Vec<u8>>,
    pub bytes: Vec<u8>,
    pub manifest: Manifest,
}

impl ServedMota {
    /// The components of the file's path.
    pub open spec fn names(self) -> Seq<Seq<u8>> {
        components(self.path@)
    }
}

/// No container stands after one whose path comes later.
pub open spec fn ascends(s: Seq<ServedMota>) -> bool {
    forall|i: int, j: int|
        0 <= i < j < s.len() ==> !path_before(#[trigger] s[j].names(), #[trigger] s[i].names())
}

/// How many containers at the front have a path before that of `x`.
pub open spec fn rank(s: Seq<ServedMota>, x: ServedMota) -> int
    decreases s.len(),
{
    if s.len() == 0 || !path_before(s[0].names(), x.names()) {
        0
    } else {
        1 + rank(s.drop_first(), x)
    }
}

/// The containers in the order of their paths; those with the same path keep their order.
pub open spec fn in_path_order(s: Seq<ServedMota>) -> Seq<ServedMota>
    decreases s.len(),
{
    if s.len() == 0 {
        s
    } else {
        let rest = in_path_order(s.drop_first());
        rest.insert(rank(rest, s[0]), s[0])
    }
}

proof fn lemma_rank(s: Seq<ServedMota>, x: ServedMota)
    ensures
        0 <= rank(s, x) <= s.len(),
        forall|k: int| 0 <= k < rank(s, x) ==> path_before(#[trigger] s[k].names(), x.names()),
        rank(s, x) < s.len() ==> !path_before(s[rank(s, x)].names(), x.names()),
    decreases s.len(),
{
    if s.len() > 0 && path_before(s[0].names(), x.names()) {
        let tail = s.drop_first();
        lemma_rank(tail, x);
        assert forall|k: int| 0 <= k < rank(s, x) implies path_before(
            #[trigger] s[k].names(),
            x.names(),
        ) by {
            if k > 0 {
                assert(tail[k - 1] == s[k]);
                assert(path_before(tail[k - 1].names(), x.names()));
            }
        }
        if rank(s, x) < s.len() {
            assert(tail[rank(tail, x)] == s[rank(s, x)]);
        }
    }
}

proof fn lemma_insert_ascends(s: Seq<ServedMota>, x: ServedMota)
    requires
        ascends(s),
    ensures
        ascends(s.insert(rank(s, x), x)),
{
    let at = rank(s, x);
    let t = s.insert(at, x);
    lemma_rank(s, x);
    assert forall|i: int, j: int| 0 <= i < j < t.len() implies !path_before(
        #[trigger] t[j].names(),
        #[trigger] t[i].names(),
    ) by {
        let a = t[i].names();
        let b = t[j].names();
        if path_before(b, a) {
            if j == at {
                assert(path_before(s[i].names(), x.names()));
                lemma_path_transitive(a, b, a);
                lemma_path_irreflexive(a);
            } else if i == at {
                let m = s[at].names();
                assert(!path_before(m, a));
                assert(t[j] == s[j - 1]);
                assert(j - 1 > at ==> !path_before(s[j - 1].names(), s[at].names()));
                lemma_path_total(m, b);
                if path_before(m, b) {
                    lemma_path_transitive(m, b, a);
                }
            } else {
                let p = if i < at {
                    i
                } else {
                    i - 1
                };
                let q = if j < at {
                    j
                } else {
                    j - 1
                };
                assert(t[i] == s[p] && t[j] == s[q]);
                assert(!path_before(s[q].names(), s[p].names()));
            }
        }
    }
}

/// Ordering by path puts the containers in ascending order and neither drops nor adds one.
pub proof fn law_path_order_ascends(s: Seq<ServedMota>)
    ensures
        ascends(in_path_order(s)),
        in_path_order(s).len() == s.len(),
        in_path_order(s).to_multiset() == s.to_multiset(),
    decreases s.len(),
{
    if s.len() > 0 {
        let tail = s.drop_first();
        let rest = in_path_order(tail);
        law_path_order_ascends(tail);
        lemma_rank(rest, s[0]);
        lemma_insert_ascends(rest, s[0]);
        vstd::seq_lib::to_multiset_insert(rest, rank(rest, s[0]), s[0]);
        vstd::seq_lib::to_multiset_insert(tail, 0, s[0]);
        assert(s =~= tail.insert(0, s[0]));
    }
}

/// The order of a served folder is stable: it does not depend on the order in which the files were
/// found, as long as no two of them have the same path.
pub proof fn law_folder_order_is_stable(found: Seq<ServedMota>, again: Seq<ServedMota>)
    requires
        found.to_multiset() == again.to_multiset(),
        forall|i: int, j: int|
            0 <= i < j < found.len() ==> #[trigger] found[i].names() != #[trigger] found[j].names(),
    ensures
        in_path_order(found) == in_path_order(again),
{
    let x = in_path_order(found);
    let y = in_path_order(again);
    law_path_order_ascends(found);
    law_path_order_ascends(again);
    found.to_multiset_ensures();
    x.to_multiset_ensures();
    y.to_multiset_ensures();
    assert(found.no_duplicates()) by {
        assert forall|i: int, j: int|
            0 <= i < found.len() && 0 <= j < found.len() && i != j implies found[i] != found[j] by {
            assert(found[i].names() != found[j].names());
        }
    }
    found.lemma_multiset_has_no_duplicates();
    x.lemma_multiset_has_no_duplicates_conv();
    y.lemma_multiset_has_no_duplicates_conv();
    assert forall|a: ServedMota, b: ServedMota|
        found.contains(a) && found.contains(b) && a.names() == b.names() implies a == b by {
        let i = found.index_of(a);
        let j = found.index_of(b);
        assert(found[i].names() == found[j].names());
    }
    assert forall|e: ServedMota|
        x.contains(e) == y.contains(e) && x.contains(e) == found.contains(e) by {
        assert(x.contains(e) <==> x.to_multiset().count(e) > 0);
        assert(y.contains(e) <==> y.to_multiset().count(e) > 0);
        assert(found.contains(e) <==> found.to_multiset().count(e) > 0);
    }
    lemma_ascending_unique(x, y, x.len() as int);
    assert(x.take(x.len() as int) =~= x);
    assert(y.take(x.len() as int) =~= y);
}

/// Two ascending sequences of the same containers with different paths agree up to any point.
proof fn lemma_ascending_unique(x: Seq<ServedMota>, y: Seq<ServedMota>, n: int)
    requires
        ascends(x),
        ascends(y),
        x.len() == y.len(),
        x.no_duplicates(),
        y.no_duplicates(),
        forall|e: ServedMota| x.contains(e) == y.contains(e),
        forall|a: ServedMota, b: ServedMota|
            x.contains(a) && x.contains(b) && a.names() == b.names() ==> a == b,
        0 <= n <= x.len(),
    ensures
        x.take(n) == y.take(n),
    decreases n,
{
    if n > 0 {
        let k = n - 1;
        lemma_ascending_unique(x, y, k);
        let a = x[k];
        let b = y[k];
        assert(x.contains(a) && y.contains(b));
        assert(y.contains(a) && x.contains(b));
        let i = choose|i: int| 0 <= i < y.len() && y[i] == a;
        let j = choose|j: int| 0 <= j < x.len() && x[j] == b;
        assert forall|m: int| 0 <= m < k implies x[m] == y[m] by {
            assert(x.take(k)[m] == y.take(k)[m]);
        }
        if a != b {
            assert(i > k && j > k);
            assert(!path_before(y[i].names(), y[k].names()));
            assert(!path_before(x[j].names(), x[k].names()));
            lemma_path_total(a.names(), b.names());
        }
        assert(x.take(n) =~= x.take(k).push(a));
        assert(y.take(n) =~= y.take(k).push(b));
    }
}

/// The containers of a folder in a stable order (indices are how the node addresses them).
pub struct Folder {
    motas: Vec<ServedMota>,
}

impl Folder {
    /// The served containers in order.
    pub closed spec fn served(&self) -> Seq<ServedMota> {
        self.motas@
    }

    /// A folder of the given containers, in the order of their paths.
    pub fn new(motas: Vec<ServedMota>) -> (r: Folder)
        ensures
            r.served() == in_path_order(motas@),
            ascends(r.served()),
            r.served().to_multiset() == motas@.to_multiset(),
    {
        let ghost found = motas@;
        let mut left = motas;
        let mut sorted: Vec<ServedMota> = Vec::new();
        assert(found.skip(found.len() as int) =~= Seq::empty());
        while left.len() > 0
            invariant
                left@.len() <= found.len(),
                left@ == found.take(left@.len() as int),
                sorted@ == in_path_order(found.skip(left@.len() as int)),
            decreases left@.len(),
        {
            if let Some(s) = left.pop() {
                let at = position(&sorted, &s);
                proof {
                    let n = left@.len() as int;
                    assert(found.skip(n).drop_first() =~= found.skip(n + 1));
                    assert(found.skip(n)[0] == s);
                    assert(left@ =~= found.take(n));
                    lemma_rank(sorted@, s);
                }
                sorted.insert(at, s);
            }
        }
        proof {
            assert(found.skip(0) =~= found);
            law_path_order_ascends(found);
        }
        Folder { motas: sorted }
    }

    /// How many containers there are.
    pub fn count(&self) -> (r: usize)
        ensures
            r == self.served().len(),
    {
        self.motas.len()
    }

    /// The container with an index, if there is one.
    pub fn at(&self, i: usize) -> (r: Option<&ServedMota>)
        ensures
            match r {
                Some(s) => i < self.served().len() && *s == self.served()[i as int],
                None => i >= self.served().len(),
            },
    {
        if i < self.motas.len() {
            Some(&self.motas[i])
        } else {
            None
        }
    }

    /// All containers in order.
    pub fn all(&self) -> (r: &[ServedMota])
        ensures
            r@ == self.served(),
    {
        self.motas.as_slice()
    }
}

/// Where a container goes among others that are in order.
fn position(sorted: &Vec<ServedMota>, x: &ServedMota) -> (r: usize)
    ensures
        r == rank(sorted@, *x),
        r <= sorted@.len(),
{
    let mut i: usize = 0;
    assert(sorted@.skip(0) =~= sorted@);
    while i < sorted.len() && path_is_before(sorted[i].path.as_slice(), x.path.as_slice())
        invariant
            i <= sorted@.len(),
            rank(sorted@, *x) == i + rank(sorted@.skip(i as int), *x),
        decreases sorted@.len() - i,
    {
        assert(sorted@.skip(i as int).drop_first() =~= sorted@.skip(i + 1));
        i += 1;
    }
    i
}

/// What a request asks for.
pub enum Action {
    /// Answer with a status and a payload.
    Reply(u8, Vec<u8>),
    /// Look up the size of a capture.
    Stat([u8; 4]),
    /// Write a fresh partial capture with the given contents.
    Begin([u8; 4], Vec<u8>),
    /// Write data at an offset of a partial capture.
    Write([u8; 4], u64, Vec<u8>),
    /// Read a number of bytes at an offset of a capture.
    Read([u8; 4], u64, usize),
    /// Check a partial capture and publish it.
    Publish([u8; 4]),
}

/// An `Action` with its byte strings as sequences.
#[verifier::ext_equal]
pub enum ActionView {
    Reply(u8, Seq<u8>),
    Stat(Seq<u8>),
    Begin(Seq<u8>, Seq<u8>),
    Write(Seq<u8>, int, Seq<u8>),
    Read(Seq<u8>, int, int),
    Publish(Seq<u8>),
}

impl View for Action {
    type V = ActionView;

    open spec fn view(&self) -> ActionView {
        match self {
            Action::Reply(status, payload) => ActionView::Reply(*status, payload@),
            Action::Stat(mid) => ActionView::Stat(mid@),
            Action::Begin(mid, contents) => ActionView::Begin(mid@, contents@),
            Action::Write(mid, off, data) => ActionView::Write(mid@, *off as int, data@),
            Action::Read(mid, off, len) => ActionView::Read(mid@, *off as int, *len as int),
            Action::Publish(mid) => ActionView::Publish(mid@),
        }
    }
}

/// An optional action by its view.
pub open spec fn action_option(a: Option<Action>) -> Option<ActionView> {
    match a {
        Some(a) => Some(a@),
        None => None,
    }
}

/// A refusal without a payload.
pub open spec fn refusal() -> ActionView {
    ActionView::Reply(STATUS_ERR, Seq::empty())
}

/// The 38 bytes that describe a container: mid[4] target(4) fwver(4) codec(1) flags(1) total(4)
/// leaves_off(4) block_count(4) payload_off(4) payload_size(4) block_size_log2(1) source_caps(1)
/// reserved(2). Offsets and the total hold the low 32 bits.
#[verifier::opaque]
pub open spec fn description(s: ServedMota) -> Seq<u8> {
    let m = s.manifest;
    m.merkle_root@ + le32_bytes(m.target_id) + le32_bytes(m.fw_version) + seq![m.codec_id, m.flags]
        + le32_bytes((s.bytes@.len() % 0x1_0000_0000) as u32) + le32_bytes(
        (HEADER_LEN + MFL) as u32,
    ) + le32_bytes(m.block_count) + le32_bytes(
        (m.spec_payload_off() % 0x1_0000_0000) as u32,
    ) + le32_bytes(m.payload_size) + seq![m.block_size_log2, SOURCE_CAP_DEFLATE_BLOCK, 0u8, 0u8]
}

/// Describes a container for the node.
pub fn describe(s: &ServedMota) -> (r: Vec<u8>)
    ensures
        r@ == description(*s),
        r@.len() == DESC_WIRE,
{
    let m = &s.manifest;
    let mut w: Vec<u8> = Vec::new();
    push_bytes(&mut w, &m.merkle_root);
    push_u32(&mut w, m.target_id);
    push_u32(&mut w, m.fw_version);
    w.push(m.codec_id);
    w.push(m.flags);
    push_u32(&mut w, low32(s.bytes.len() as u64));
    push_u32(&mut w, (HEADER_LEN + MFL) as u32);
    push_u32(&mut w, m.block_count);
    push_u32(&mut w, low32(HEADER_LEN as u64 + MFL as u64 + m.block_count as u64 * 4));
    push_u32(&mut w, m.payload_size);
    w.push(m.block_size_log2);
    w.push(SOURCE_CAP_DEFLATE_BLOCK);
    w.push(0);
    w.push(0);
    proof {
        reveal(description);
        assert(w@ =~= description(*s));
    }
    w
}

/// Block `block` of a container's payload as a range of the container's bytes: nothing where there
/// is no such block, the blocks are larger than the transport supports, or the container is too
/// short for it.
pub open spec fn block_range(s: ServedMota, block: int) -> Option<(int, int)> {
    let m = s.manifest;
    let start = m.spec_payload_off() + block * m.spec_block_size();
    let payload_end = m.spec_payload_off() + m.payload_size;
    let end = if start + m.spec_block_size() <= payload_end {
        start + m.spec_block_size()
    } else {
        payload_end
    };
    if block < m.block_count && m.spec_block_size() <= MAX_APPLICATION_BLOCK_SIZE && start < end
        && end <= s.bytes@.len() {
        Some((start, end))
    } else {
        None
    }
}

/// The reply to a request for the bytes from `off` on of a block's compressed form: the length of
/// that form and the bytes, or a refusal where the block does not shrink or the bytes are not there.
pub open spec fn deflate_reply(
    encoded: Option<Seq<u8>>,
    block_len: int,
    off: int,
    len: int,
) -> (u8, Seq<u8>) {
    match encoded {
        Some(e) => if 0 < e.len() < block_len && e.len() <= u16::MAX && off + len <= e.len() {
            (STATUS_OK, le16_bytes(e.len() as u16) + e.subrange(off, off + len))
        } else {
            (STATUS_ERR, Seq::empty())
        },
        None => (STATUS_ERR, Seq::empty()),
    }
}

/// The reply to a request for a slice of a compressed block.
pub open spec fn deflate_block_reply(served: Seq<ServedMota>, args: Seq<u8>) -> (u8, Seq<u8>) {
    let index = args[0] as int;
    let off = le16_at(args, 3) as int;
    let len = le16_at(args, 5) as int;
    if args.len() != 7 || len > DEFLATE_READ_MAX || (len == 0 && off != 0) || index
        >= served.len() {
        (STATUS_ERR, Seq::empty())
    } else {
        match block_range(served[index], le16_at(args, 1) as int) {
            None => (STATUS_ERR, Seq::empty()),
            Some((start, end)) => deflate_reply(
                deflated(served[index].bytes@.subrange(start, end)),
                end - start,
                off,
                len,
            ),
        }
    }
}

/// The contents of a fresh partial capture: `total` bytes of 0xFF, with the seed's payload laid over
/// the payload region as far as both go.
pub open spec fn fresh_part(total: u32, seed: Option<(Seq<u8>, u32)>) -> Seq<u8> {
    Seq::new(
        total as nat,
        |i: int|
            match seed {
                Some((payload, block_count)) => {
                    let off = HEADER_LEN + MFL + 4 * block_count;
                    if off <= i < off + payload.len() {
                        payload[i - off]
                    } else {
                        0xFFu8
                    }
                },
                None => 0xFFu8,
            },
    )
}

/// What a storage request asks for. Requests too short for their operation are ignored, other
/// operations are refused, and all are refused where there is no store.
pub open spec fn storage_action(
    has_store: bool,
    seed: Option<(Seq<u8>, u32)>,
    op: u8,
    args: Seq<u8>,
) -> Option<ActionView> {
    let mid = args.take(4);
    let off = le32_at(args, 4) as int;
    let len = le16_at(args, 8) as int;
    if !has_store {
        Some(refusal())
    } else if args.len() < 4 || op == OP_BEGIN && args.len() < 8 || (op == OP_WRITE || op
        == OP_SREAD) && args.len() < 10 {
        None
    } else if op == OP_STAT {
        Some(ActionView::Stat(mid))
    } else if op == OP_BEGIN {
        Some(ActionView::Begin(mid, fresh_part(le32_at(args, 4), seed)))
    } else if op == OP_WRITE {
        if 10 + len <= args.len() {
            Some(ActionView::Write(mid, off, args.subrange(10, 10 + len)))
        } else {
            Some(refusal())
        }
    } else if op == OP_SREAD {
        Some(ActionView::Read(mid, off, len))
    } else if op == OP_FIN {
        Some(ActionView::Publish(mid))
    } else {
        Some(refusal())
    }
}

/// What a request asks for. Unknown and short requests are ignored: the node retries.
pub open spec fn request_action(
    served: Seq<ServedMota>,
    has_store: bool,
    seed: Option<(Seq<u8>, u32)>,
    op: u8,
    args: Seq<u8>,
) -> Option<ActionView> {
    if op == OP_COUNT {
        Some(
            ActionView::Reply(
                STATUS_OK,
                seq![
                    if served.len() < 255 {
                        served.len() as u8
                    } else {
                        255u8
                    },
                ],
            ),
        )
    } else if op == OP_DESCRIBE {
        if args.len() < 1 {
            None
        } else if args[0] < served.len() {
            Some(ActionView::Reply(STATUS_OK, description(served[args[0] as int])))
        } else {
            Some(refusal())
        }
    } else if op == OP_READ {
        let off = le32_at(args, 1) as int;
        let len = le16_at(args, 5) as int;
        if args.len() < 7 {
            None
        } else if args[0] < served.len() && off + len <= served[args[0] as int].bytes@.len() {
            Some(
                ActionView::Reply(
                    STATUS_OK,
                    served[args[0] as int].bytes@.subrange(off, off + len),
                ),
            )
        } else {
            Some(refusal())
        }
    } else if op == OP_DEFLATE_BLOCK {
        let reply = deflate_block_reply(served, args);
        Some(ActionView::Reply(reply.0, reply.1))
    } else if op == OP_STAT || op == OP_BEGIN || op == OP_WRITE || op == OP_SREAD || op == OP_FIN {
        storage_action(has_store, seed, op, args)
    } else {
        None
    }
}

/// The range of a payload block in a container's bytes.
fn find_block(s: &ServedMota, block: u16) -> (r: Option<(usize, usize)>)
    ensures
        match r {
            Some((start, end)) => block_range(*s, block as int) == Some((start as int, end as int))
                && start < end <= s.bytes@.len(),
            None => block_range(*s, block as int) is None,
        },
{
    let m = &s.manifest;
    proof {
        lemma2_to64();
        if m.block_size_log2 > 11 {
            lemma_pow2_strictly_increases(11, m.block_size_log2 as nat);
        } else if m.block_size_log2 < 11 {
            lemma_pow2_strictly_increases(m.block_size_log2 as nat, 11);
        }
    }
    if block as u32 >= m.block_count || m.block_size_log2 > 11 {
        return None;
    }
    let block_size: u64 = m.block_size() as u64;
    let payload_start: u64 = HEADER_LEN as u64 + MFL as u64 + m.block_count as u64 * 4;
    assert(0 <= block * block_size <= 0xFFFF * 2048) by (nonlinear_arith)
        requires
            block <= 0xFFFF,
            block_size <= 2048,
    ;
    let start: u64 = payload_start + block as u64 * block_size;
    let payload_end: u64 = payload_start + m.payload_size as u64;
    let end: u64 = if start + block_size <= payload_end {
        start + block_size
    } else {
        payload_end
    };
    if start >= end || end > s.bytes.len() as u64 {
        return None;
    }
    Some((start as usize, end as usize))
}

/// The reply to a request for a slice of a block whose compressed form is `encoded`. A zero-length
/// slice asks for the length alone. Blocks that do not shrink are refused, and the radio source
/// falls back to the raw representation.
pub fn deflate_slice_reply(
    encoded: &Option<Vec<u8>>,
    block_len: usize,
    off: u16,
    len: u16,
) -> (r: (u8, Vec<u8>))
    ensures
        (r.0, r.1@) == deflate_reply(
            match *encoded {
                Some(e) => Some(e@),
                None => None,
            },
            block_len as int,
            off as int,
            len as int,
        ),
{
    match encoded {
        Some(e) => {
            if e.len() == 0 || e.len() >= block_len || e.len() > 0xFFFF || (len as usize) > e.len()
                || (off as usize) > e.len() - len as usize {
                return (STATUS_ERR, Vec::new());
            }
            let mut payload: Vec<u8> = Vec::new();
            push_u16(&mut payload, e.len() as u16);
            push_bytes(
                &mut payload,
                slice_subrange(e.as_slice(), off as usize, off as usize + len as usize),
            );
            (STATUS_OK, payload)
        },
        None => (STATUS_ERR, Vec::new()),
    }
}

fn first4(args: &[u8]) -> (r: [u8; 4])
    requires
        args@.len() >= 4,
    ensures
        r@ == args@.take(4),
{
    let r: [u8; 4] = [args[0], args[1], args[2], args[3]];
    assert(r@ =~= args@.take(4));
    r
}

/// Turns requests into replies and storage operations, for one served folder.
pub struct SeederCore {
    folder: Folder,
    store_dir: Option<std::path::PathBuf>,
    seed: Option<(Vec<u8>, u32)>,
}

impl SeederCore {
    pub closed spec fn served(&self) -> Seq<ServedMota> {
        self.folder.served()
    }

    pub closed spec fn store(&self) -> Option<std::path::PathBuf> {
        self.store_dir
    }

    /// The seed's payload and block count.
    pub closed spec fn seeded(&self) -> Option<(Seq<u8>, u32)> {
        match self.seed {
            Some((payload, block_count)) => Some((payload@, block_count)),
            None => None,
        }
    }

    /// A core that serves `folder` and captures into `store_dir`.
    pub fn new(folder: Folder, store_dir: Option<std::path::PathBuf>) -> (r: SeederCore)
        ensures
            r.served() == folder.served(),
            r.store() == store_dir,
            r.seeded() is None,
    {
        SeederCore { folder, store_dir, seed: None }
    }

    /// Stages a similar build's payload into each captured `.part`, so that a validating pull on the
    /// node compares it with the target's leaves and pulls only the differing blocks.
    pub fn set_seed(&mut self, payload: Vec<u8>, block_count: u32)
        ensures
            final(self).served() == old(self).served(),
            final(self).store() == old(self).store(),
            final(self).seeded() == Some((payload@, block_count)),
    {
        self.seed = Some((payload, block_count));
    }

    /// Stages the payload of a similar build's container.
    pub fn seed_from(&mut self, blob: &[u8]) -> (r: Result<Manifest, ContainerError>)
        ensures
            parses_to(blob@, r),
            final(self).served() == old(self).served(),
            final(self).store() == old(self).store(),
            final(self).seeded() == match r {
                Ok(m) => Some(
                    (payload_of(blob@, m.block_count as int, m.payload_size as int), m.block_count),
                ),
                Err(_) => old(self).seeded(),
            },
    {
        match Manifest::parse(blob) {
            Err(e) => Err(e),
            Ok(m) => {
                proof {
                    lemma_container_geometry(blob@, m);
                }
                let start: usize = m.payload_off();
                let payload = slice_to_vec(
                    slice_subrange(blob, start, start + m.payload_size as usize),
                );
                self.set_seed(payload, m.block_count);
                Ok(m)
            },
        }
    }

    /// The folder that is served.
    pub fn folder(&self) -> (r: &Folder)
        ensures
            r.served() == self.served(),
    {
        &self.folder
    }

    /// Where captures are stored, if they are.
    pub fn store_dir(&self) -> (r: &Option<std::path::PathBuf>)
        ensures
            *r == self.store(),
    {
        &self.store_dir
    }

    /// Handles one request. `None` means ignore an unknown or short request (the node retries).
    pub fn handle(&self, op: u8, args: &[u8]) -> (r: Option<Action>)
        ensures
            action_option(r) == request_action(
                self.served(),
                self.store() is Some,
                self.seeded(),
                op,
                args@,
            ),
    {
        if op == OP_COUNT {
            let n: usize = self.folder.count();
            let mut payload: Vec<u8> = Vec::new();
            payload.push(
                if n < 255 {
                    n as u8
                } else {
                    255
                },
            );
            assert(payload@ =~= seq![if n < 255 { n as u8 } else { 255u8 }]);
            Some(Action::Reply(STATUS_OK, payload))
        } else if op == OP_DESCRIBE {
            if args.len() < 1 {
                return None;
            }
            match self.folder.at(args[0] as usize) {
                Some(s) => Some(Action::Reply(STATUS_OK, describe(s))),
                None => Some(Action::Reply(STATUS_ERR, Vec::new())),
            }
        } else if op == OP_READ {
            if args.len() < 7 {
                return None;
            }
            let off: usize = rd_u32(args, 1) as usize;
            let len: usize = rd_u16(args, 5) as usize;
            match self.folder.at(args[0] as usize) {
                Some(s) => {
                    if len <= s.bytes.len() && off <= s.bytes.len() - len {
                        Some(
                            Action::Reply(
                                STATUS_OK,
                                slice_to_vec(
                                    slice_subrange(s.bytes.as_slice(), off, off + len),
                                ),
                            ),
                        )
                    } else {
                        Some(Action::Reply(STATUS_ERR, Vec::new()))
                    }
                },
                None => Some(Action::Reply(STATUS_ERR, Vec::new())),
            }
        } else if op == OP_DEFLATE_BLOCK {
            let (status, payload) = self.deflate_block(args);
            Some(Action::Reply(status, payload))
        } else if op == OP_STAT || op == OP_BEGIN || op == OP_WRITE || op == OP_SREAD || op
            == OP_FIN {
            self.handle_storage(op, args)
        } else {
            None
        }
    }

    /// The reply with a slice of one independently compressed payload block.
    fn deflate_block(&self, args: &[u8]) -> (r: (u8, Vec<u8>))
        ensures
            (r.0, r.1@) == deflate_block_reply(self.served(), args@),
    {
        if args.len() != 7 {
            return (STATUS_ERR, Vec::new());
        }
        let block: u16 = rd_u16(args, 1);
        let off: u16 = rd_u16(args, 3);
        let len: u16 = rd_u16(args, 5);
        if len as usize > DEFLATE_READ_MAX || (len == 0 && off != 0) {
            return (STATUS_ERR, Vec::new());
        }
        match self.folder.at(args[0] as usize) {
            None => (STATUS_ERR, Vec::new()),
            Some(s) => match find_block(s, block) {
                None => (STATUS_ERR, Vec::new()),
                Some((start, end)) => {
                    let encoded = deflate_raw(slice_subrange(s.bytes.as_slice(), start, end));
                    deflate_slice_reply(&encoded, end - start, off, len)
                },
            },
        }
    }

    /// What a request to capture a container asks for. A partial capture is `<mid>.mota.part`,
    /// published as `<mid>.mota`.
    pub fn handle_storage(&self, op: u8, args: &[u8]) -> (r: Option<Action>)
        ensures
            action_option(r) == storage_action(self.store() is Some, self.seeded(), op, args@),
    {
        if self.store_dir.is_none() {
            return Some(Action::Reply(STATUS_ERR, Vec::new()));
        }
        if args.len() < 4 {
            return None;
        }
        let mid = first4(args);
        if op == OP_STAT {
            return Some(Action::Stat(mid));
        }
        if op == OP_FIN {
            return Some(Action::Publish(mid));
        }
        if op != OP_BEGIN && op != OP_WRITE && op != OP_SREAD {
            return Some(Action::Reply(STATUS_ERR, Vec::new()));
        }
        if args.len() < 8 {
            return None;
        }
        if op == OP_BEGIN {
            return Some(Action::Begin(mid, self.begin_part(rd_u32(args, 4))));
        }
        if args.len() < 10 {
            return None;
        }
        let off: u64 = rd_u32(args, 4) as u64;
        let len: usize = rd_u16(args, 8) as usize;
        if op == OP_SREAD {
            return Some(Action::Read(mid, off, len));
        }
        if len <= args.len() - 10 {
            Some(
                Action::Write(mid, off, slice_to_vec(slice_subrange(args, 10, 10 + len))),
            )
        } else {
            Some(Action::Reply(STATUS_ERR, Vec::new()))
        }
    }

    /// The contents of a fresh partial capture. Header and leaves stay 0xFF: the node writes those
    /// as it fetches.
    fn begin_part(&self, total: u32) -> (r: Vec<u8>)
        ensures
            r@ == fresh_part(total, self.seeded()),
    {
        let ghost want = fresh_part(total, self.seeded());
        let mut buf: Vec<u8> = Vec::new();
        let mut i: u32 = 0;
        while i < total
            invariant
                i <= total,
                want == fresh_part(total, self.seeded()),
                buf@ == want.take(i as int),
            decreases total - i,
        {
            let mut byte: u8 = 0xFF;
            if let Some((payload, block_count)) = &self.seed {
                let off: u64 = HEADER_LEN as u64 + MFL as u64 + *block_count as u64 * 4;
                if off <= i as u64 && i as u64 - off < payload.len() as u64 {
                    byte = payload[(i as u64 - off) as usize];
                }
            }
            assert(byte == want[i as int]);
            buf.push(byte);
            assert(want.take(i + 1) =~= want.take(i as int).push(want[i as int]));
            i += 1;
        }
        assert(want.take(total as int) =~= want);
        buf
    }
}

/// The file name of a capture: its id in lower-case hexadecimal and the suffix of its state.
pub open spec fn capture_name(mid: Seq<u8>, part: bool) -> Seq<char> {
    bytes_hex_lower(mid) + if part {
        ".mota.part"@
    } else {
        ".mota"@
    }
}

/// The name of a capture's file in the store: `<mid-hex-lowercase>.mota[.part]`.
pub fn store_name(mid: &[u8; 4], part: bool) -> (s: String)
    ensures
        s@ == capture_name(mid@, part),
{
    let mut s = hex_encode(mid);
    if part {
        s.append(".mota.part");
    } else {
        s.append(".mota");
    }
    s
}

/// The answer to a STAT request for a capture of the given size, or for none: whether it is there,
/// and the low 32 bits of its size.
pub open spec fn stat_answer(size: Option<int>) -> (u8, Seq<u8>) {
    (
        STATUS_OK,
        match size {
            Some(n) => seq![1u8] + le32_bytes((n % 0x1_0000_0000) as u32),
            None => seq![0u8] + le32_bytes(0),
        },
    )
}

/// The answer to a storage request that returns no data.
pub open spec fn done_answer(done: bool) -> (u8, Seq<u8>) {
    if done {
        (STATUS_OK, Seq::empty())
    } else {
        (STATUS_ERR, Seq::empty())
    }
}

/// The answer to a storage read: the data, or a refusal where it could not be read.
pub open spec fn read_answer(data: Option<Seq<u8>>) -> (u8, Seq<u8>) {
    match data {
        Some(d) => (STATUS_OK, d),
        None => (STATUS_ERR, Seq::empty()),
    }
}

/// The reply to a STAT request for a capture of the given size, or for none.
pub fn stat_reply(size: Option<u64>) -> (r: (u8, Vec<u8>))
    ensures
        (r.0, r.1@) == stat_answer(
            match size {
                Some(n) => Some(n as int),
                None => None,
            },
        ),
{
    let mut payload: Vec<u8> = Vec::new();
    match size {
        Some(n) => {
            payload.push(1);
            push_u32(&mut payload, low32(n));
        },
        None => {
            payload.push(0);
            push_u32(&mut payload, 0);
        },
    }
    (STATUS_OK, payload)
}

/// The reply to a storage request that returns no data.
pub fn done_reply(done: bool) -> (r: (u8, Vec<u8>))
    ensures
        (r.0, r.1@) == done_answer(done),
{
    if done {
        (STATUS_OK, Vec::new())
    } else {
        (STATUS_ERR, Vec::new())
    }
}

/// The reply to a storage read: the data, or a refusal where it could not be read.
pub fn read_reply(data: Option<Vec<u8>>) -> (r: (u8, Vec<u8>))
    ensures
        (r.0, r.1@) == read_answer(
            match data {
                Some(d) => Some(d@),
                None => None,
            },
        ),
{
    match data {
        Some(d) => (STATUS_OK, d),
        None => (STATUS_ERR, Vec::new()),
    }
}

/// Whether the first eight bytes of a capture are a container's header that declares the size.
pub open spec fn declares_size(head: Seq<u8>, size: int) -> bool {
    window(head, 0, 4) == MAGIC@ && le32_at(head, 4) == size
}

/// Whether a partial capture of `size` bytes that starts with `head` may be published: it has the
/// magic and the size that it declares.
pub fn part_is_complete(head: &[u8; 8], size: u64) -> (r: bool)
    ensures
        r == declares_size(head@, size as int),
{
    window_eq(head, 0, &MAGIC) && rd_u32(head, 4) as u64 == size
}

/// Every field of a description stands at its place, and those below 2^32 read back unchanged.
pub proof fn law_description_fields(s: ServedMota)
    ensures
        description(s).len() == DESC_WIRE,
        window(description(s), 0, 4) == s.manifest.merkle_root@,
        le32_at(description(s), 4) == s.manifest.target_id,
        le32_at(description(s), 8) == s.manifest.fw_version,
        description(s)[12] == s.manifest.codec_id,
        description(s)[13] == s.manifest.flags,
        s.bytes@.len() <= u32::MAX ==> le32_at(description(s), 14) == s.bytes@.len(),
        le32_at(description(s), 18) == HEADER_LEN + MFL,
        le32_at(description(s), 22) == s.manifest.block_count,
        s.manifest.spec_payload_off() <= u32::MAX ==> le32_at(description(s), 26)
            == s.manifest.spec_payload_off(),
        le32_at(description(s), 30) == s.manifest.payload_size,
        description(s)[34] == s.manifest.block_size_log2,
        description(s)[35] == SOURCE_CAP_DEFLATE_BLOCK,
{
    let d = description(s);
    let total = (s.bytes@.len() % 0x1_0000_0000) as u32;
    let payload_off = (s.manifest.spec_payload_off() % 0x1_0000_0000) as u32;
    lemma_description_windows(s);
    lemma_le32_field(d, 4, s.manifest.target_id);
    lemma_le32_field(d, 8, s.manifest.fw_version);
    lemma_le32_field(d, 14, total);
    lemma_le32_field(d, 18, (HEADER_LEN + MFL) as u32);
    lemma_le32_field(d, 22, s.manifest.block_count);
    lemma_le32_field(d, 26, payload_off);
    lemma_le32_field(d, 30, s.manifest.payload_size);
}

proof fn lemma_description_windows(s: ServedMota)
    ensures
        ({
            let d = description(s);
            let m = s.manifest;
            &&& d.len() == DESC_WIRE
            &&& window(d, 0, 4) == m.merkle_root@
            &&& window(d, 4, 4) == le32_bytes(m.target_id)
            &&& window(d, 8, 4) == le32_bytes(m.fw_version)
            &&& d[12] == m.codec_id
            &&& d[13] == m.flags
            &&& window(d, 14, 4) == le32_bytes((s.bytes@.len() % 0x1_0000_0000) as u32)
            &&& window(d, 18, 4) == le32_bytes((HEADER_LEN + MFL) as u32)
            &&& window(d, 22, 4) == le32_bytes(m.block_count)
            &&& window(d, 26, 4) == le32_bytes((m.spec_payload_off() % 0x1_0000_0000) as u32)
            &&& window(d, 30, 4) == le32_bytes(m.payload_size)
            &&& d[34] == m.block_size_log2
            &&& d[35] == SOURCE_CAP_DEFLATE_BLOCK
        }),
{
    reveal(description);
    let d = description(s);
    let m = s.manifest;
    assert(window(d, 0, 4) =~= m.merkle_root@);
    assert(window(d, 4, 4) =~= le32_bytes(m.target_id));
    assert(window(d, 8, 4) =~= le32_bytes(m.fw_version));
    assert(window(d, 14, 4) =~= le32_bytes((s.bytes@.len() % 0x1_0000_0000) as u32));
    assert(window(d, 18, 4) =~= le32_bytes((HEADER_LEN + MFL) as u32));
    assert(window(d, 22, 4) =~= le32_bytes(m.block_count));
    assert(window(d, 26, 4) =~= le32_bytes((m.spec_payload_off() % 0x1_0000_0000) as u32));
    assert(window(d, 30, 4) =~= le32_bytes(m.payload_size));
}

/// A compressed block can be fetched in slices: each accepted reply tells the same full length, and
/// two slices that meet join to the slice that spans them.
pub proof fn law_deflate_slices_join(encoded: Seq<u8>, block_len: int, off: int, a: int, b: int)
    requires
        0 < encoded.len() < block_len,
        encoded.len() <= u16::MAX,
        0 <= off,
        0 <= a,
        0 <= b,
        off + a + b <= encoded.len(),
    ensures
        ({
            let first = deflate_reply(Some(encoded), block_len, off, a);
            let second = deflate_reply(Some(encoded), block_len, off + a, b);
            let whole = deflate_reply(Some(encoded), block_len, off, a + b);
            &&& first.0 == STATUS_OK && second.0 == STATUS_OK && whole.0 == STATUS_OK
            &&& first.1.take(2) == whole.1.take(2) && second.1.take(2) == whole.1.take(2)
            &&& le16_at(whole.1, 0) == encoded.len()
            &&& first.1.skip(2) + second.1.skip(2) == whole.1.skip(2)
            &&& deflate_reply(Some(encoded), block_len, 0, encoded.len() as int).1.skip(2)
                == encoded
        }),
{
    let first = deflate_reply(Some(encoded), block_len, off, a);
    let second = deflate_reply(Some(encoded), block_len, off + a, b);
    let whole = deflate_reply(Some(encoded), block_len, off, a + b);
    assert(first.1.take(2) =~= whole.1.take(2));
    assert(second.1.take(2) =~= whole.1.take(2));
    assert(first.1.skip(2) =~= encoded.subrange(off, off + a));
    assert(second.1.skip(2) =~= encoded.subrange(off + a, off + a + b));
    assert(whole.1.skip(2) =~= encoded.subrange(off, off + a + b));
    let all = deflate_reply(Some(encoded), block_len, 0, encoded.len() as int);
    assert(all.1.skip(2) =~= encoded);
}

/// A block is only ever offered compressed where that saves bytes; a block that does not shrink is
/// refused whatever slice is asked for.
pub proof fn law_incompressible_block_refused(encoded: Seq<u8>, block_len: int, off: int, len: int)
    requires
        encoded.len() >= block_len,
    ensures
        deflate_reply(Some(encoded), block_len, off, len) == (STATUS_ERR, Seq::<u8>::empty()),
{
}

/// A serving core without a store refuses every storage request and asks for no storage operation.
pub proof fn law_serve_only_refuses_storage(
    served: Seq<ServedMota>,
    seed: Option<(Seq<u8>, u32)>,
    op: u8,
    args: Seq<u8>,
)
    ensures
        request_action(served, false, seed, op, args) is Some ==> request_action(
            served,
            false,
            seed,
            op,
            args,
        )->0 is Reply,
        op == OP_STAT || op == OP_BEGIN || op == OP_WRITE || op == OP_SREAD || op == OP_FIN
            ==> request_action(served, false, seed, op, args) == Some(refusal()),
        storage_action(false, seed, op, args) == Some(refusal()),
{
}

/// A fresh capture is blank in its header, manifest and leaf table, whatever the seed.
pub proof fn law_fresh_part_head_is_blank(total: u32, seed: Option<(Seq<u8>, u32)>, i: int)
    requires
        0 <= i < total,
        seed matches Some((_, block_count)) ==> i < HEADER_LEN + MFL + 4 * block_count,
    ensures
        fresh_part(total, seed).len() == total,
        fresh_part(total, seed)[i] == 0xFF,
{
}

/// Texts one after another, with a semicolon and a space between them.
pub open spec fn reasons_text(reasons: Seq<Seq<char>>) -> Seq<char>
    decreases reasons.len(),
{
    if reasons.len() == 0 {
        Seq::empty()
    } else if reasons.len() == 1 {
        reasons[0]
    } else {
        reasons_text(reasons.drop_last()) + "; "@ + reasons.last()
    }
}

/// Writes reasons one after another.
pub fn join_reasons(reasons: &Vec<String>) -> (s: String)
    ensures
        s@ == reasons_text(texts(reasons@)),
{
    let ghost all = texts(reasons@);
    let mut s = String::new();
    assert(all.take(0) =~= Seq::empty());
    let mut i: usize = 0;
    while i < reasons.len()
        invariant
            i <= reasons@.len(),
            all == texts(reasons@),
            s@ == reasons_text(all.take(i as int)),
        decreases reasons@.len() - i,
    {
        if i > 0 {
            s.append("; ");
        }
        s.append(reasons[i].as_str());
        proof {
            let next = all.take(i + 1);
            assert(next.drop_last() =~= all.take(i as int));
            assert(next.last() == reasons@[i as int]@);
            if i == 0 {
                assert(s@ =~= next[0]);
            }
        }
        i += 1;
    }
    assert(all.take(i as int) =~= all);
    s
}

/// Accepts a container to a served folder: only one that verifies without a problem. The reasons
/// against another are given, so that one bad file never sinks the rest.
pub fn accept_served(path: Vec<Vec<u8>>, bytes: Vec<u8>) -> (r: Result<ServedMota, String>)
    ensures
        match r {
            Ok(s) => s.path@ == path@ && s.bytes@ == bytes@ && is_container(bytes@, s.manifest)
                && problems_of(bytes@, s.manifest).len() == 0,
            Err(why) => exists|report: Seq<Seq<char>>| #[trigger]
                verifies_to(bytes@, report) && report.len() > 0 && why@ == reasons_text(report),
        },
{
    let report = verify(bytes.as_slice());
    if report.len() > 0 {
        let why = join_reasons(&report);
        assert(verifies_to(bytes@, texts(report@)));
        return Err(why);
    }
    match Manifest::parse(bytes.as_slice()) {
        Ok(manifest) => {
            proof {
                assert(is_container(bytes@, manifest));
                assert(texts(report@) == messages(problems_of(bytes@, manifest)));
            }
            Ok(ServedMota { path, bytes, manifest })
        },
        Err(e) => {
            proof {
                assert(texts(report@).len() == 0);
                if exists|m: Manifest| is_container(bytes@, m) {
                    let m = choose|m: Manifest| is_container(bytes@, m);
                    law_parse_is_deterministic(bytes@, Ok(m), Err(e));
                }
                assert(false);
            }
            Err(e.to_string())
        },
    }
}

/// Every field of an accepted container's description reads back unchanged.
pub proof fn law_accepted_description(s: ServedMota)
    requires
        is_container(s.bytes@, s.manifest),
    ensures
        le32_at(description(s), 14) == s.bytes@.len(),
        le32_at(description(s), 26) == s.manifest.spec_payload_off(),
        le32_at(description(s), 26) + le32_at(description(s), 30) + TRAILER_LEN == le32_at(
            description(s),
            14,
        ),
{
    lemma_container_geometry(s.bytes@, s.manifest);
    law_description_fields(s);
}

/// The blocks of an accepted container that the seeder compresses are the blocks of its payload: a
/// block's range holds that block, and every block below the block count has one.
pub proof fn law_served_blocks_are_payload_blocks(s: ServedMota, block: int)
    requires
        is_container(s.bytes@, s.manifest),
        0 <= block < s.manifest.block_count,
    ensures
        ({
            let m = s.manifest;
            let payload = payload_of(s.bytes@, m.block_count as int, m.payload_size as int);
            match block_range(s, block) {
                Some((start, end)) => s.bytes@.subrange(start, end) == block_at(
                    payload,
                    m.spec_block_size() as int,
                    block,
                ),
                None => false,
            }
        }),
{
    let m = s.manifest;
    let bs = m.spec_block_size() as int;
    lemma_container_geometry(s.bytes@, m);
    lemma_block_starts_inside(m.payload_size as int, bs, block);
    let payload = payload_of(s.bytes@, m.block_count as int, m.payload_size as int);
    let (start, end) = block_range(s, block)->0;
    assert(s.bytes@.subrange(start, end) =~= block_at(payload, bs, block));
}

/// The transport measurement and the seeder choose alike: a block counts as compressed exactly where
/// the seeder offers its compressed form.
pub proof fn law_measurement_matches_seeder(encoded: Seq<u8>, block_len: int)
    requires
        0 <= block_len <= MAX_APPLICATION_BLOCK_SIZE,
    ensures
        travels_compressed(block_len, encoded.len() as int) == (deflate_reply(
            Some(encoded),
            block_len,
            0,
            0,
        ).0 == STATUS_OK),
{
}

/// A READ of container `i` from `off` on is answered with exactly those bytes of container `i`,
/// where there is such a container and they lie inside it, and is refused otherwise.
pub proof fn law_read_serves_container(
    served: Seq<ServedMota>,
    has_store: bool,
    seed: Option<(Seq<u8>, u32)>,
    i: u8,
    off: u32,
    len: u16,
)
    ensures
        ({
            let args = seq![i] + le32_bytes(off) + le16_bytes(len);
            request_action(served, has_store, seed, 0x03, args) == if i < served.len() && off + len
                <= served[i as int].bytes@.len() {
                Some(
                    ActionView::Reply(0x00, served[i as int].bytes@.subrange(off as int, off + len)),
                )
            } else {
                Some(ActionView::Reply(0x01, Seq::empty()))
            }
        }),
{
    let args = seq![i] + le32_bytes(off) + le16_bytes(len);
    assert(window(args, 1, 4) =~= le32_bytes(off));
    lemma_le32_field(args, 1, off);
    assert(le16_at(args, 5) == len);
}

/// Reads of consecutive ranges of a container join: what two neighbouring reads give is what one read
/// of both ranges gives.
pub proof fn law_reads_join(
    served: Seq<ServedMota>,
    has_store: bool,
    seed: Option<(Seq<u8>, u32)>,
    i: u8,
    off: u32,
    a: u16,
    b: u16,
)
    requires
        i < served.len(),
        off + a + b <= served[i as int].bytes@.len(),
        a + b <= u16::MAX,
        off + a <= u32::MAX,
    ensures
        ({
            let ask = |o: u32, n: u16|
                request_action(
                    served,
                    has_store,
                    seed,
                    0x03,
                    seq![i] + le32_bytes(o) + le16_bytes(n),
                );
            match (ask(off, a), ask((off + a) as u32, b), ask(off, (a + b) as u16)) {
                (
                    Some(ActionView::Reply(s, x)),
                    Some(ActionView::Reply(t, y)),
                    Some(ActionView::Reply(u, z)),
                ) => s == 0 && t == 0 && u == 0 && x.len() == a && y.len() == b && x + y == z,
                _ => false,
            }
        }),
{
    law_read_serves_container(served, has_store, seed, i, off, a);
    law_read_serves_container(served, has_store, seed, i, (off + a) as u32, b);
    law_read_serves_container(served, has_store, seed, i, off, (a + b) as u16);
    let bytes = served[i as int].bytes@;
    assert(bytes.subrange(off as int, off + a) + bytes.subrange(off + a, off + a + b)
        =~= bytes.subrange(off as int, off + a + b));
}

/// What is answered about container `i` depends on no other container: folders that agree on it give
/// the same answers to DESCRIBE, READ and DEFLATE_BLOCK, whatever store and seed there are.
pub proof fn law_containers_are_independent(
    a: Seq<ServedMota>,
    b: Seq<ServedMota>,
    op: u8,
    args: Seq<u8>,
    store_a: bool,
    store_b: bool,
    seed_a: Option<(Seq<u8>, u32)>,
    seed_b: Option<(Seq<u8>, u32)>,
)
    requires
        op == 0x02 || op == 0x03 || op == 0x09,
        args.len() >= 1,
        args[0] < a.len(),
        args[0] < b.len(),
        a[args[0] as int] == b[args[0] as int],
    ensures
        request_action(a, store_a, seed_a, op, args) == request_action(
            b,
            store_b,
            seed_b,
            op,
            args,
        ),
{
}

/// COUNT tells the number of containers, up to 255.
pub proof fn law_count(
    served: Seq<ServedMota>,
    has_store: bool,
    seed: Option<(Seq<u8>, u32)>,
    args: Seq<u8>,
)
    ensures
        request_action(served, has_store, seed, 0x01, args) matches Some(
            ActionView::Reply(status, payload),
        ) && status == 0 && payload.len() == 1 && payload[0] == if served.len() <= 255 {
            served.len() as int
        } else {
            255
        },
{
}

/// DESCRIBE of container `i` gives 38 bytes with that container's fields at their places, or a
/// refusal where there is no such container.
pub proof fn law_describe_describes(
    served: Seq<ServedMota>,
    has_store: bool,
    seed: Option<(Seq<u8>, u32)>,
    i: u8,
)
    ensures
        match request_action(served, has_store, seed, 0x02, seq![i]) {
            Some(ActionView::Reply(status, d)) => if i < served.len() {
                let s = served[i as int];
                let m = s.manifest;
                &&& status == 0
                &&& d.len() == 38
                &&& d.subrange(0, 4) == m.merkle_root@
                &&& le32_at(d, 4) == m.target_id
                &&& le32_at(d, 8) == m.fw_version
                &&& d[12] == m.codec_id
                &&& d[13] == m.flags
                &&& le32_at(d, 14) == s.bytes@.len() % 0x1_0000_0000
                &&& le32_at(d, 18) == 205
                &&& le32_at(d, 22) == m.block_count
                &&& le32_at(d, 26) == (205 + 4 * m.block_count) % 0x1_0000_0000
                &&& le32_at(d, 30) == m.payload_size
                &&& d[34] == m.block_size_log2
                &&& d[35] == 1
                &&& d[36] == 0 && d[37] == 0
            } else {
                status == 1 && d.len() == 0
            },
            _ => false,
        },
{
    if i < served.len() {
        let s = served[i as int];
        let d = description(s);
        law_description_fields(s);
        lemma_description_windows(s);
        lemma_le32_field(d, 14, (s.bytes@.len() % 0x1_0000_0000) as u32);
        lemma_le32_field(d, 26, (s.manifest.spec_payload_off() % 0x1_0000_0000) as u32);
        reveal(description);
    }
}

/// A slice of a compressed block is a slice of the compressed form of that very block: block `block`
/// of the payload of container `i`, cut at the container's block size. The reply is the form's length
/// in two bytes and the slice. It is refused where the form is not shorter than the block, where the
/// slice is not inside it, where more than 192 bytes are asked for, where nothing is asked for from
/// an offset other than zero, and where there is no such container or block.
pub proof fn law_deflate_serves_block(
    served: Seq<ServedMota>,
    has_store: bool,
    seed: Option<(Seq<u8>, u32)>,
    i: u8,
    block: u16,
    off: u16,
    len: u16,
)
    requires
        i < served.len() ==> is_container(served[i as int].bytes@, served[i as int].manifest),
    ensures
        ({
            let args = seq![i] + le16_bytes(block) + le16_bytes(off) + le16_bytes(len);
            let s = served[i as int];
            let m = s.manifest;
            let bs = pow2(m.block_size_log2 as nat) as int;
            let start = 205 + 4 * m.block_count;
            let payload = s.bytes@.subrange(start, start + m.payload_size);
            let raw = block_at(payload, bs, block as int);
            let form = deflated(raw);
            let given = i < served.len() && block < m.block_count && len <= 192 && (len > 0 || off
                == 0) && form is Some && 0 < form->0.len() < raw.len() && off + len
                <= form->0.len();
            request_action(served, has_store, seed, 0x09, args) == if given {
                Some(
                    ActionView::Reply(
                        0x00,
                        le16_bytes(form->0.len() as u16) + form->0.subrange(off as int, off + len),
                    ),
                )
            } else {
                Some(ActionView::Reply(0x01, Seq::empty()))
            }
        }),
{
    let args = seq![i] + le16_bytes(block) + le16_bytes(off) + le16_bytes(len);
    assert(le16_at(args, 1) == block);
    assert(le16_at(args, 3) == off);
    assert(le16_at(args, 5) == len);
    assert(args[0] == i);
    if i < served.len() {
        let s = served[i as int];
        let m = s.manifest;
        lemma_container_geometry(s.bytes@, m);
        let start = 205 + 4 * m.block_count;
        assert(payload_of(s.bytes@, m.block_count as int, m.payload_size as int)
            =~= s.bytes@.subrange(start, start + m.payload_size));
        if block < m.block_count {
            law_served_blocks_are_payload_blocks(s, block as int);
        }
    }
}

/// A request that is too short for its operation is ignored, and so is an operation that is not
/// known; a DEFLATE_BLOCK request of another length than seven is refused.
pub proof fn law_short_and_unknown_requests(
    served: Seq<ServedMota>,
    seed: Option<(Seq<u8>, u32)>,
    op: u8,
    args: Seq<u8>,
)
    ensures
        op == 0 || op > 9 ==> request_action(served, true, seed, op, args) is None
            && request_action(served, false, seed, op, args) is None,
        op == 2 && args.len() < 1 ==> request_action(served, true, seed, op, args) is None,
        op == 3 && args.len() < 7 ==> request_action(served, true, seed, op, args) is None,
        (op == 4 || op == 8) && args.len() < 4 ==> request_action(served, true, seed, op, args) is None,
        op == 5 && args.len() < 8 ==> request_action(served, true, seed, op, args) is None,
        (op == 6 || op == 7) && args.len() < 10 ==> request_action(served, true, seed, op, args) is None,
        op == 9 && args.len() != 7 ==> request_action(served, true, seed, op, args) == Some(
            ActionView::Reply(1, Seq::empty()),
        ),
{
}

/// What each storage request asks for, under the id in its first four bytes: STAT looks a capture up,
/// BEGIN creates one of the size that follows, WRITE puts the data that follows offset and length at
/// that offset and is refused where the data is cut short, a read asks for a number of bytes at an
/// offset, and FIN publishes.
pub proof fn law_storage_requests(
    served: Seq<ServedMota>,
    seed: Option<(Seq<u8>, u32)>,
    mid: Seq<u8>,
    total: u32,
    off: u32,
    len: u16,
    data: Seq<u8>,
)
    requires
        mid.len() == 4,
    ensures
        request_action(served, true, seed, 0x04, mid) == Some(ActionView::Stat(mid)),
        request_action(served, true, seed, 0x05, mid + le32_bytes(total)) matches Some(
            ActionView::Begin(id, contents),
        ) && id == mid && contents.len() == total,
        request_action(served, true, seed, 0x06, mid + le32_bytes(off) + le16_bytes(len) + data)
            == if len <= data.len() {
            Some(ActionView::Write(mid, off as int, data.take(len as int)))
        } else {
            Some(ActionView::Reply(0x01, Seq::empty()))
        },
        request_action(served, true, seed, 0x07, mid + le32_bytes(off) + le16_bytes(len)) == Some(
            ActionView::Read(mid, off as int, len as int),
        ),
        request_action(served, true, seed, 0x08, mid) == Some(ActionView::Publish(mid)),
{
    assert(mid.take(4) =~= mid);
    let begin = mid + le32_bytes(total);
    assert(begin.take(4) =~= mid);
    assert(window(begin, 4, 4) =~= le32_bytes(total));
    lemma_le32_field(begin, 4, total);
    let read = mid + le32_bytes(off) + le16_bytes(len);
    assert(read.take(4) =~= mid);
    assert(window(read, 4, 4) =~= le32_bytes(off));
    lemma_le32_field(read, 4, off);
    assert(le16_at(read, 8) == len);
    let write = mid + le32_bytes(off) + le16_bytes(len) + data;
    assert(write.take(4) =~= mid);
    assert(window(write, 4, 4) =~= le32_bytes(off));
    lemma_le32_field(write, 4, off);
    assert(le16_at(write, 8) == len);
    if len <= data.len() {
        assert(write.subrange(10, 10 + len) =~= data.take(len as int));
    }
}

/// The contents of a fresh capture: as many bytes as were asked for, with the seed's payload where a
/// container with the seed's number of blocks has its own, as far as both go, and 0xFF elsewhere.
pub proof fn law_fresh_part_contents(total: u32, payload: Seq<u8>, blocks: u32, i: int)
    requires
        0 <= i < total,
    ensures
        fresh_part(total, None).len() == total,
        fresh_part(total, None)[i] == 0xFF,
        fresh_part(total, Some((payload, blocks))).len() == total,
        fresh_part(total, Some((payload, blocks)))[i] == if 205 + 4 * blocks <= i < 205 + 4 * blocks
            + payload.len() {
            payload[i - 205 - 4 * blocks]
        } else {
            0xFF
        },
{
}

/// The answers to storage requests: STAT tells whether there is a capture and the low 32 bits of its
/// size, a read gives its data, and what failed is refused.
pub proof fn law_storage_answers(size: u32, data: Seq<u8>)
    ensures
        stat_answer(None) == (0u8, seq![0u8, 0, 0, 0, 0]),
        stat_answer(Some(size as int)).0 == 0,
        stat_answer(Some(size as int)).1.len() == 5,
        stat_answer(Some(size as int)).1[0] == 1,
        le32_at(stat_answer(Some(size as int)).1, 1) == size,
        read_answer(Some(data)) == (0u8, data),
        read_answer(None) == (1u8, Seq::<u8>::empty()),
        done_answer(true) == (0u8, Seq::<u8>::empty()),
        done_answer(false) == (1u8, Seq::<u8>::empty()),
{
    let some = stat_answer(Some(size as int)).1;
    assert(window(some, 1, 4) =~= le32_bytes(size));
    lemma_le32_field(some, 1, size);
    reveal(le32_bytes);
    assert(stat_answer(None).1 =~= seq![0u8, 0, 0, 0, 0]);
}

/// A capture may be published exactly where it starts with `mOTA` and its own size.
pub proof fn law_complete_capture(head: Seq<u8>, size: int)
    requires
        head.len() == 8,
    ensures
        declares_size(head, size) <==> head[0] == 0x6D && head[1] == 0x4F && head[2] == 0x54
            && head[3] == 0x41 && le32_at(head, 4) == size,
{
    let w = window(head, 0, 4);
    assert(w[0] == head[0] && w[1] == head[1] && w[2] == head[2] && w[3] == head[3]);
    if head[0] == 0x6D && head[1] == 0x4F && head[2] == 0x54 && head[3] == 0x41 {
        assert(w =~= MAGIC@);
    }
}

/// The file of a capture is named by its id in lower-case hexadecimal, with `.mota.part` while it is
/// partial and `.mota` when it is published.
pub proof fn law_capture_names(mid: Seq<u8>)
    requires
        mid.len() == 4,
    ensures
        capture_name(mid, true) == bytes_hex_lower(mid) + ".mota.part"@,
        capture_name(mid, false) == bytes_hex_lower(mid) + ".mota"@,
        capture_name(mid, true) != capture_name(mid, false),
{
    reveal_strlit(".mota.part");
    reveal_strlit(".mota");
    assert(capture_name(mid, true).len() != capture_name(mid, false).len());
}

/// Reasons are joined in order, with a semicolon and a space between two.
pub proof fn law_reasons_join(reasons: Seq<Seq<char>>, last: Seq<char>)
    ensures
        reasons_text(seq![last]) == last,
        reasons.len() > 0 ==> reasons_text(reasons.push(last)) == reasons_text(reasons) + "; "@ + last,
{
    assert(reasons.push(last).drop_last() =~= reasons);
}

/// In a served folder no container stands before one whose path comes earlier, and every container
/// that was found is served, as often as it was found.
pub proof fn law_earlier_path_first(found: Seq<ServedMota>, i: int, j: int, s: ServedMota)
    requires
        0 <= i < j < found.len(),
    ensures
        ({
            let served = in_path_order(found);
            &&& served.len() == found.len()
            &&& !path_before(components(served[j].path@), components(served[i].path@))
            &&& served.to_multiset().count(s) == found.to_multiset().count(s)
        }),
{
    law_path_order_ascends(found);
    let served = in_path_order(found);
    assert(!path_before(served[j].names(), served[i].names()));
}

/// A storage request means the same whether it is taken as one or as any request; taken as one, an
/// operation that is none is refused.
pub proof fn law_storage_is_handled_alike(
    served: Seq<ServedMota>,
    has_store: bool,
    seed: Option<(Seq<u8>, u32)>,
    op: u8,
    args: Seq<u8>,
)
    ensures
        4 <= op <= 8 ==> storage_action(has_store, seed, op, args) == request_action(
            served,
            has_store,
            seed,
            op,
            args,
        ),
        (op < 4 || op > 8) && args.len() >= 4 ==> storage_action(has_store, seed, op, args) == Some(
            ActionView::Reply(0x01, Seq::empty()),
        ),
        !has_store ==> storage_action(has_store, seed, op, args) == Some(
            ActionView::Reply(0x01, Seq::empty()),
        ),
{
}

/// STAT tells the low 32 bits of a size that does not fit them.
pub proof fn law_stat_of_large_capture(size: u64)
    ensures
        le32_at(stat_answer(Some(size as int)).1, 1) == size % 0x1_0000_0000,
{
    let some = stat_answer(Some(size as int)).1;
    let low = (size as int % 0x1_0000_0000) as u32;
    assert(window(some, 1, 4) =~= le32_bytes(low));
    lemma_le32_field(some, 1, low);
}

} // verus!
