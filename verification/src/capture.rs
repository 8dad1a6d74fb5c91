//! What a store of captures holds, and what storage requests make of it.
//!
//! A capture is a file that a node fills over the link: a partial one until it is published. The
//! model here is that of a disk on which every operation that is possible succeeds.
use vstd::prelude::*;

use crate::bytes::{le16_at, le16_bytes, le32_bytes, lemma_le32_field, window};
use crate::seeder::{OP_BEGIN, OP_FIN, OP_SREAD, OP_STAT, OP_WRITE, STATUS_OK};
use crate::serve::{
    declares_size, done_answer, fresh_part, read_answer, request_action, stat_answer,
    storage_action, ActionView, ServedMota,
};

verus! {

broadcast use crate::bytes::lemma_le32_len;

/// The partial and the published captures, by the id of their container.
#[verifier::ext_equal]
pub struct CaptureStore {
    pub parts: Map<Seq<u8>, Seq<u8>>,
    pub published: Map<Seq<u8>, Seq<u8>>,
}

/// A file after data was written at an offset: it keeps its other bytes, and grows by zeros up to
/// the offset where it must. Writing nothing changes nothing.
pub open spec fn overwritten(file: Seq<u8>, off: int, data: Seq<u8>) -> Seq<u8> {
    if data.len() == 0 {
        file
    } else {
        Seq::new(
            if off + data.len() > file.len() {
                (off + data.len()) as nat
            } else {
                file.len()
            },
            |i: int|
                if off <= i < off + data.len() {
                    data[i - off]
                } else if i < file.len() {
                    file[i]
                } else {
                    0u8
                },
        )
    }
}

/// The bytes that a read gets from a file; nothing where it reaches past the end.
pub open spec fn read_from(file: Seq<u8>, off: int, len: int) -> Option<Seq<u8>> {
    if len == 0 {
        Some(Seq::empty())
    } else if off + len <= file.len() {
        Some(file.subrange(off, off + len))
    } else {
        None
    }
}

/// Whether a partial capture may be published: it has the magic and the size that it declares.
pub open spec fn is_complete(part: Seq<u8>) -> bool {
    part.len() >= 8 && declares_size(part.take(8), part.len() as int)
}

/// The store after an action, and the reply to it.
pub open spec fn performed(store: CaptureStore, action: ActionView) -> (
    CaptureStore,
    (u8, Seq<u8>),
) {
    match action {
        ActionView::Reply(status, payload) => (store, (status, payload)),
        ActionView::Stat(mid) => (
            store,
            stat_answer(
                if store.published.dom().contains(mid) {
                    Some(store.published[mid].len() as int)
                } else if store.parts.dom().contains(mid) {
                    Some(store.parts[mid].len() as int)
                } else {
                    None
                },
            ),
        ),
        ActionView::Begin(mid, contents) => (
            CaptureStore { parts: store.parts.insert(mid, contents), ..store },
            done_answer(true),
        ),
        ActionView::Write(mid, off, data) => if store.parts.dom().contains(mid) {
            (
                CaptureStore {
                    parts: store.parts.insert(mid, overwritten(store.parts[mid], off, data)),
                    ..store
                },
                done_answer(true),
            )
        } else {
            (store, done_answer(false))
        },
        ActionView::Read(mid, off, len) => (
            store,
            read_answer(
                if store.parts.dom().contains(mid) {
                    read_from(store.parts[mid], off, len)
                } else if store.published.dom().contains(mid) {
                    read_from(store.published[mid], off, len)
                } else {
                    None
                },
            ),
        ),
        ActionView::Publish(mid) => if store.parts.dom().contains(mid) && is_complete(
            store.parts[mid],
        ) {
            (
                CaptureStore {
                    parts: store.parts.remove(mid),
                    published: store.published.insert(mid, store.parts[mid]),
                },
                done_answer(true),
            )
        } else {
            (store, done_answer(false))
        },
    }
}

/// The store after a request, and the reply to it; a request that is ignored has none.
pub open spec fn served_request(
    served: Seq<ServedMota>,
    seed: Option<(Seq<u8>, u32)>,
    store: CaptureStore,
    op: u8,
    args: Seq<u8>,
) -> (CaptureStore, Option<(u8, Seq<u8>)>) {
    match request_action(served, true, seed, op, args) {
        None => (store, None),
        Some(action) => {
            let (after, reply) = performed(store, action);
            (after, Some(reply))
        },
    }
}

/// The store after a storage request, and the reply to it; a request that is ignored has none.
pub open spec fn stored_request(
    seed: Option<(Seq<u8>, u32)>,
    store: CaptureStore,
    op: u8,
    args: Seq<u8>,
) -> (CaptureStore, Option<(u8, Seq<u8>)>) {
    match storage_action(true, seed, op, args) {
        None => (store, None),
        Some(action) => {
            let (after, reply) = performed(store, action);
            (after, Some(reply))
        },
    }
}

/// The arguments of a BEGIN request.
pub open spec fn begin_args(mid: Seq<u8>, total: u32) -> Seq<u8> {
    mid + le32_bytes(total)
}

/// The arguments of a WRITE request.
pub open spec fn write_args(mid: Seq<u8>, off: u32, data: Seq<u8>) -> Seq<u8> {
    mid + le32_bytes(off) + le16_bytes(data.len() as u16) + data
}

/// The arguments of a storage read.
pub open spec fn read_args(mid: Seq<u8>, off: u32, len: u16) -> Seq<u8> {
    mid + le32_bytes(off) + le16_bytes(len)
}

proof fn lemma_request_actions(
    served: Seq<ServedMota>,
    seed: Option<(Seq<u8>, u32)>,
    mid: Seq<u8>,
    total: u32,
    off: u32,
    data: Seq<u8>,
    len: u16,
)
    requires
        mid.len() == 4,
        data.len() <= u16::MAX,
    ensures
        request_action(served, true, seed, OP_BEGIN, begin_args(mid, total)) == Some(
            ActionView::Begin(mid, fresh_part(total, seed)),
        ),
        request_action(served, true, seed, OP_WRITE, write_args(mid, off, data)) == Some(
            ActionView::Write(mid, off as int, data),
        ),
        request_action(served, true, seed, OP_SREAD, read_args(mid, off, len)) == Some(
            ActionView::Read(mid, off as int, len as int),
        ),
        request_action(served, true, seed, OP_STAT, mid) == Some(ActionView::Stat(mid)),
        request_action(served, true, seed, OP_FIN, mid) == Some(ActionView::Publish(mid)),
{
    let begin = begin_args(mid, total);
    assert(begin.take(4) =~= mid);
    assert(window(begin, 4, 4) =~= le32_bytes(total));
    lemma_le32_field(begin, 4, total);
    let write = write_args(mid, off, data);
    assert(write.take(4) =~= mid);
    assert(window(write, 4, 4) =~= le32_bytes(off));
    lemma_le32_field(write, 4, off);
    assert(le16_at(write, 8) == data.len());
    assert(write.subrange(10, 10 + data.len() as int) =~= data);
    let read = read_args(mid, off, len);
    assert(read.take(4) =~= mid);
    assert(window(read, 4, 4) =~= le32_bytes(off));
    lemma_le32_field(read, 4, off);
    assert(le16_at(read, 8) == len);
    assert(mid.take(4) =~= mid);
}

/// A capture gives back what was written: after a BEGIN and a WRITE inside it, both of which are
/// answered with success, a read of the same range gives the data. The rest of the capture is as the
/// BEGIN left it, and no other capture is touched. It is the same whether the requests are taken as
/// any request is or as storage requests.
pub proof fn law_capture_reads_back(
    served: Seq<ServedMota>,
    seed: Option<(Seq<u8>, u32)>,
    store: CaptureStore,
    mid: Seq<u8>,
    total: u32,
    off: u32,
    data: Seq<u8>,
)
    requires
        mid.len() == 4,
        data.len() <= u16::MAX,
        off + data.len() <= total,
    ensures
        ({
            let begun = served_request(served, seed, store, OP_BEGIN, begin_args(mid, total));
            let written = served_request(
                served,
                seed,
                begun.0,
                OP_WRITE,
                write_args(mid, off, data),
            );
            let read = served_request(
                served,
                seed,
                written.0,
                OP_SREAD,
                read_args(mid, off, data.len() as u16),
            );
            let part = written.0.parts[mid];
            &&& begun == stored_request(seed, store, OP_BEGIN, begin_args(mid, total))
            &&& written == stored_request(seed, begun.0, OP_WRITE, write_args(mid, off, data))
            &&& read == stored_request(
                seed,
                written.0,
                OP_SREAD,
                read_args(mid, off, data.len() as u16),
            )
            &&& begun.1 == Some((STATUS_OK, Seq::<u8>::empty()))
            &&& written.1 == Some((STATUS_OK, Seq::<u8>::empty()))
            &&& read.1 == Some((STATUS_OK, data))
            &&& read.0 == written.0
            &&& written.0.parts.dom().contains(mid)
            &&& part.len() == total
            &&& forall|i: int|
                0 <= i < total && !(off <= i < off + data.len()) ==> #[trigger] part[i]
                    == fresh_part(total, seed)[i]
            &&& written.0.parts.remove(mid) == store.parts.remove(mid)
            &&& written.0.published == store.published
        }),
{
    lemma_request_actions(served, seed, mid, total, off, data, data.len() as u16);
    let begun = served_request(served, seed, store, OP_BEGIN, begin_args(mid, total));
    let written = served_request(served, seed, begun.0, OP_WRITE, write_args(mid, off, data));
    law_write_then_read(begun.0, mid, off as int, data);
    assert(begun.0.parts[mid] == fresh_part(total, seed));
    assert(written.0.parts.remove(mid) =~= store.parts.remove(mid));
}

/// In any store, a write into a partial capture is what a read of the same range gives; the bytes
/// around it stay, and so does every other capture.
pub proof fn law_write_then_read(store: CaptureStore, mid: Seq<u8>, off: int, data: Seq<u8>)
    requires
        store.parts.dom().contains(mid),
        0 <= off,
    ensures
        ({
            let (after, reply) = performed(store, ActionView::Write(mid, off, data));
            let before = store.parts[mid];
            let part = after.parts[mid];
            &&& reply == (STATUS_OK, Seq::<u8>::empty())
            &&& performed(after, ActionView::Read(mid, off, data.len() as int)) == (
                after,
                (STATUS_OK, data),
            )
            &&& part.len() >= before.len()
            &&& off + data.len() <= before.len() ==> part.len() == before.len()
            &&& forall|i: int|
                0 <= i < before.len() && !(off <= i < off + data.len()) ==> #[trigger] part[i]
                    == before[i]
            &&& after.published == store.published
            &&& forall|other: Seq<u8>|
                other != mid ==> (#[trigger] after.parts.dom().contains(other)
                    == store.parts.dom().contains(other)) && after.parts[other]
                    == store.parts[other]
        }),
{
    let (after, _) = performed(store, ActionView::Write(mid, off, data));
    let part = after.parts[mid];
    if data.len() > 0 {
        assert(part.subrange(off, off + data.len()) =~= data);
    } else {
        assert(data =~= Seq::empty());
    }
}

/// Publishing keeps a complete capture's bytes: it is found published with the same contents and
/// size, and reads the same. A capture that is not complete stays as it is and is refused.
pub proof fn law_publish_keeps_contents(store: CaptureStore, mid: Seq<u8>, off: int, len: int)
    requires
        store.parts.dom().contains(mid),
    ensures
        ({
            let (after, reply) = performed(store, ActionView::Publish(mid));
            let read = performed(store, ActionView::Read(mid, off, len)).1;
            &&& performed(after, ActionView::Read(mid, off, len)).1 == read
            &&& is_complete(store.parts[mid]) ==> {
                &&& reply == done_answer(true)
                &&& after.published[mid] == store.parts[mid]
                &&& !after.parts.dom().contains(mid)
                &&& performed(after, ActionView::Stat(mid)).1 == stat_answer(
                    Some(store.parts[mid].len() as int),
                )
            }
            &&& !is_complete(store.parts[mid]) ==> after == store && reply == done_answer(false)
        }),
{
}

} // verus!
