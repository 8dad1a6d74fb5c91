//! Reading Intel HEX files.
use vstd::prelude::*;
use vstd::slice::{slice_subrange, slice_to_vec};
use vstd::string::*;

use crate::bootloader::{IMAGE_SIZE, IMAGE_START};
use crate::text::{dec, digit_char, hex_upper, lower_digit_char, push_dec, push_hex};

verus! {

/// Why a file cannot be read; the number is that of the line, or an address.
#[derive(Clone, Copy, Debug, PartialEq, Eq, Structural)]
pub enum HexError {
    Syntax(u64),
    Length(u64),
    Checksum(u64),
    RecordType(u64),
    MissingEnd,
    Conflict(u64),
    NoData,
    Span,
}

impl HexError {
    /// The message of the error.
    pub open spec fn message(self) -> Seq<char> {
        match self {
            HexError::Syntax(n) => "malformed Intel HEX record on line "@ + dec(n as int),
            HexError::Length(n) => "bad Intel HEX record length on line "@ + dec(n as int),
            HexError::Checksum(n) => "bad Intel HEX checksum on line "@ + dec(n as int),
            HexError::RecordType(n) => "unsupported Intel HEX record type on line "@ + dec(
                n as int,
            ),
            HexError::MissingEnd => "Intel HEX file has no end record"@,
            HexError::Conflict(a) => "conflicting Intel HEX data at 0x"@ + hex_upper(a as int),
            HexError::NoData => "Intel HEX file holds no data"@,
            HexError::Span => "Intel HEX data spans more than 32 bits"@,
        }
    }

    /// Writes the error's message.
    pub fn to_string(&self) -> (s: String)
        ensures
            s@ == self.message(),
    {
        match self {
            HexError::Syntax(n) => {
                let mut s = String::from_str("malformed Intel HEX record on line ");
                push_dec(&mut s, *n);
                s
            },
            HexError::Length(n) => {
                let mut s = String::from_str("bad Intel HEX record length on line ");
                push_dec(&mut s, *n);
                s
            },
            HexError::Checksum(n) => {
                let mut s = String::from_str("bad Intel HEX checksum on line ");
                push_dec(&mut s, *n);
                s
            },
            HexError::RecordType(n) => {
                let mut s = String::from_str("unsupported Intel HEX record type on line ");
                push_dec(&mut s, *n);
                s
            },
            HexError::MissingEnd => String::from_str("Intel HEX file has no end record"),
            HexError::Conflict(a) => {
                let mut s = String::from_str("conflicting Intel HEX data at 0x");
                push_hex(&mut s, *a);
                s
            },
            HexError::NoData => String::from_str("Intel HEX file holds no data"),
            HexError::Span => String::from_str("Intel HEX data spans more than 32 bits"),
        }
    }
}

/// Data at an address.
pub struct HexChunk {
    pub address: u64,
    pub data: Vec<u8>,
}

/// A `HexChunk` with its data as a sequence.
#[verifier::ext_equal]
pub struct ChunkView {
    pub address: int,
    pub data: Seq<u8>,
}

impl View for HexChunk {
    type V = ChunkView;

    open spec fn view(&self) -> ChunkView {
        ChunkView { address: self.address as int, data: self.data@ }
    }
}

/// The views of a list of chunks.
pub open spec fn chunk_views(chunks: Seq<HexChunk>) -> Seq<ChunkView> {
    Seq::new(chunks.len(), |i: int| chunks[i]@)
}

/// The value of a hexadecimal digit, in either case.
pub open spec fn nibble(b: u8) -> Option<int> {
    if 0x30 <= b <= 0x39 {
        Some(b - 0x30)
    } else if 0x41 <= b <= 0x46 {
        Some(b - 0x37)
    } else if 0x61 <= b <= 0x66 {
        Some(b - 0x57)
    } else {
        None
    }
}

/// The byte that the digits at `i` and `i + 1` stand for.
pub open spec fn byte_at(s: Seq<u8>, i: int) -> Option<u8> {
    match (nibble(s[i]), nibble(s[i + 1])) {
        (Some(hi), Some(lo)) => Some((hi * 16 + lo) as u8),
        _ => None,
    }
}

/// The bytes of a record: pairs of digits behind a colon.
pub open spec fn record_bytes(line: Seq<u8>) -> Option<Seq<u8>> {
    if line.len() % 2 == 1 && line[0] == 0x3A && forall|i: int|
        0 <= i < line.len() / 2 ==> (#[trigger] byte_at(line, 1 + 2 * i)) is Some {
        Some(Seq::new((line.len() / 2) as nat, |i: int| byte_at(line, 1 + 2 * i)->0))
    } else {
        None
    }
}

/// The sum of all bytes.
pub open spec fn byte_sum(bytes: Seq<u8>) -> int
    decreases bytes.len(),
{
    if bytes.len() == 0 {
        0
    } else {
        byte_sum(bytes.drop_last()) + bytes.last()
    }
}

/// The bytes of the record on a line: count, address, type, data and checksum.
pub open spec fn record(line: Seq<u8>, number: u64) -> Result<Seq<u8>, HexError> {
    match record_bytes(line) {
        None => Err(HexError::Syntax(number)),
        Some(bytes) => if bytes.len() < 5 || bytes.len() != bytes[0] + 5 {
            Err(HexError::Length(number))
        } else if byte_sum(bytes) % 256 != 0 {
            Err(HexError::Checksum(number))
        } else {
            Ok(bytes)
        },
    }
}

pub open spec fn is_blank(b: u8) -> bool {
    b == 0x20 || b == 0x09 || b == 0x0D
}

/// A line without the blanks at its end.
pub open spec fn without_blanks(line: Seq<u8>) -> Seq<u8>
    decreases line.len(),
{
    if line.len() > 0 && is_blank(line.last()) {
        without_blanks(line.drop_last())
    } else {
        line
    }
}

/// Where the first line of a text ends.
pub open spec fn line_end(text: Seq<u8>) -> int
    decreases text.len(),
{
    if text.len() == 0 || text[0] == 0x0A {
        0
    } else {
        1 + line_end(text.skip(1))
    }
}

proof fn lemma_line_end(text: Seq<u8>, n: int)
    requires
        0 <= n <= text.len(),
        forall|k: int| 0 <= k < n ==> text[k] != 0x0A,
        n < text.len() ==> text[n] == 0x0A,
    ensures
        line_end(text) == n,
    decreases n,
{
    if n > 0 {
        let rest = text.skip(1);
        assert forall|k: int| 0 <= k < n - 1 implies rest[k] != 0x0A by {
            assert(rest[k] == text[k + 1]);
        }
        if n < text.len() {
            assert(rest[n - 1] == text[n]);
        }
        lemma_line_end(rest, n - 1);
    }
}

proof fn lemma_line_end_inside(text: Seq<u8>)
    ensures
        0 <= line_end(text) <= text.len(),
    decreases text.len(),
{
    if text.len() > 0 && text[0] != 0x0A {
        lemma_line_end_inside(text.skip(1));
    }
}

/// What is left of a text behind its first line.
pub open spec fn after_line(text: Seq<u8>) -> Seq<u8> {
    if line_end(text) + 1 <= text.len() {
        text.skip(line_end(text) + 1)
    } else {
        Seq::empty()
    }
}

/// The data of a file from a line on, under an address base. What follows the end record is not
/// looked at.
pub open spec fn hex_data(text: Seq<u8>, base: int, number: u64) -> Result<
    Seq<ChunkView>,
    HexError,
>
    decreases text.len(),
    via hex_data_shrinks
{
    let next = if number < u64::MAX {
        (number + 1) as u64
    } else {
        number
    };
    if text.len() == 0 {
        Err(HexError::MissingEnd)
    } else {
        let line = without_blanks(text.take(line_end(text)));
        let rest = after_line(text);
        if line.len() == 0 {
            hex_data(rest, base, next)
        } else {
            match record(line, number) {
                Err(e) => Err(e),
                Ok(bytes) => {
                    let kind = bytes[3];
                    let value = bytes[4] * 0x100 + bytes[5];
                    if kind == 0 {
                        match hex_data(rest, base, next) {
                            Err(e) => Err(e),
                            Ok(chunks) => Ok(
                                seq![
                                    ChunkView {
                                        address: base + bytes[1] * 0x100 + bytes[2],
                                        data: bytes.subrange(4, bytes.len() - 1),
                                    },
                                ] + chunks,
                            ),
                        }
                    } else if kind == 1 {
                        Ok(Seq::empty())
                    } else if kind == 3 || kind == 5 {
                        hex_data(rest, base, next)
                    } else if kind != 2 && kind != 4 {
                        Err(HexError::RecordType(number))
                    } else if bytes[0] != 2 {
                        Err(HexError::Length(number))
                    } else if kind == 2 {
                        hex_data(rest, value * 0x10, next)
                    } else {
                        hex_data(rest, value * 0x1_0000, next)
                    }
                },
            }
        }
    }
}

#[via_fn]
proof fn hex_data_shrinks(text: Seq<u8>, base: int, number: u64) {
    lemma_line_end_inside(text);
}

fn nibble_of(b: u8) -> (r: Option<u8>)
    ensures
        match r {
            Some(v) => nibble(b) == Some(v as int) && v < 16,
            None => nibble(b) is None,
        },
{
    if 0x30 <= b && b <= 0x39 {
        Some(b - 0x30)
    } else if 0x41 <= b && b <= 0x46 {
        Some(b - 0x37)
    } else if 0x61 <= b && b <= 0x66 {
        Some(b - 0x57)
    } else {
        None
    }
}

fn read_record(line: &[u8], number: u64) -> (r: Result<Vec<u8>, HexError>)
    ensures
        match r {
            Ok(bytes) => record(line@, number) == Ok::<Seq<u8>, HexError>(bytes@) && bytes@.len()
                >= 5 && bytes@.len() == bytes@[0] + 5,
            Err(e) => record(line@, number) == Err::<Seq<u8>, HexError>(e),
        },
{
    if line.len() % 2 != 1 || line[0] != 0x3A {
        return Err(HexError::Syntax(number));
    }
    let n: usize = line.len() / 2;
    let mut bytes: Vec<u8> = Vec::new();
    let mut sum: u8 = 0;
    let mut i: usize = 0;
    assert(bytes@ =~= Seq::empty());
    while i < n
        invariant
            i <= n,
            n == line@.len() / 2,
            line@.len() % 2 == 1,
            line@.len() <= usize::MAX,
            bytes@.len() == i,
            forall|k: int|
                0 <= k < i ==> (#[trigger] byte_at(line@, 1 + 2 * k)) == Some(bytes@[k]),
            sum == byte_sum(bytes@) % 256,
            byte_sum(bytes@) >= 0,
        decreases n - i,
    {
        match (nibble_of(line[1 + 2 * i]), nibble_of(line[2 + 2 * i])) {
            (Some(hi), Some(lo)) => {
                let b: u8 = hi * 16 + lo;
                assert(byte_at(line@, 1 + 2 * i) == Some(b));
                let ghost before = bytes@;
                bytes.push(b);
                assert(bytes@.drop_last() =~= before);
                sum = sum.wrapping_add(b);
            },
            _ => {
                assert(byte_at(line@, 1 + 2 * i) is None);
                return Err(HexError::Syntax(number));
            },
        }
        i += 1;
    }
    proof {
        let want = Seq::new((line@.len() / 2) as nat, |i: int| byte_at(line@, 1 + 2 * i)->0);
        assert forall|k: int| 0 <= k < n implies bytes@[k] == want[k] by {
            assert(byte_at(line@, 1 + 2 * k) == Some(bytes@[k]));
        }
        assert(bytes@ =~= want);
    }
    if bytes.len() < 5 || bytes.len() != bytes[0] as usize + 5 {
        return Err(HexError::Length(number));
    }
    if sum != 0 {
        return Err(HexError::Checksum(number));
    }
    Ok(bytes)
}

/// The outcome of reading a file, after the chunks that were read already.
pub open spec fn with_chunks(before: Seq<ChunkView>, r: Result<Seq<ChunkView>, HexError>) -> Result<
    Seq<ChunkView>,
    HexError,
> {
    match r {
        Ok(chunks) => Ok(before + chunks),
        Err(e) => Err(e),
    }
}

/// Reads the data of an Intel HEX file.
pub fn parse_hex(text: &[u8]) -> (r: Result<Vec<HexChunk>, HexError>)
    ensures
        match r {
            Ok(chunks) => hex_data(text@, 0, 1) == Ok::<Seq<ChunkView>, HexError>(
                chunk_views(chunks@),
            ),
            Err(e) => hex_data(text@, 0, 1) == Err::<Seq<ChunkView>, HexError>(e),
        },
{
    let len: usize = text.len();
    let mut chunks: Vec<HexChunk> = Vec::new();
    let mut pos: usize = 0;
    let mut base: u64 = 0;
    let mut number: u64 = 1;
    proof {
        assert(text@.skip(0) =~= text@);
        assert(chunk_views(chunks@) =~= Seq::empty());
        match hex_data(text@, 0, 1) {
            Ok(c) => {
                assert(Seq::<ChunkView>::empty() + c =~= c);
            },
            Err(_) => {},
        }
    }
    while pos < len
        invariant
            pos <= len == text@.len(),
            base <= 0xFFFF_0000,
            hex_data(text@, 0, 1) == with_chunks(
                chunk_views(chunks@),
                hex_data(text@.skip(pos as int), base as int, number),
            ),
        decreases len - pos,
    {
        let ghost rest = text@.skip(pos as int);
        let mut end: usize = pos;
        while end < len && text[end] != 0x0A
            invariant
                pos <= end <= len == text@.len(),
                forall|k: int| pos <= k < end ==> text@[k] != 0x0A,
            decreases len - end,
        {
            end += 1;
        }
        let mut stop: usize = end;
        let ghost whole = text@.subrange(pos as int, end as int);
        while stop > pos && (text[stop - 1] == 0x20 || text[stop - 1] == 0x09 || text[stop - 1]
            == 0x0D)
            invariant
                pos <= stop <= end <= len == text@.len(),
                whole == text@.subrange(pos as int, end as int),
                without_blanks(whole) == without_blanks(text@.subrange(pos as int, stop as int)),
            decreases stop - pos,
        {
            proof {
                let t = text@.subrange(pos as int, stop as int);
                assert(t.last() == text@[stop - 1]);
                assert(t.drop_last() =~= text@.subrange(pos as int, stop - 1));
            }
            stop -= 1;
        }
        let line = slice_subrange(text, pos, stop);
        let next: usize = if end < len {
            end + 1
        } else {
            len
        };
        let following: u64 = if number < u64::MAX {
            number + 1
        } else {
            number
        };
        proof {
            let n = end - pos;
            assert forall|k: int| 0 <= k < n implies rest[k] != 0x0A by {
                assert(rest[k] == text@[pos + k]);
            }
            if n < rest.len() {
                assert(rest[n] == text@[end as int]);
            }
            lemma_line_end(rest, n);
            assert(rest.take(n) =~= whole);
            if stop > pos {
                assert(line@.last() == text@[stop - 1]);
            }
            assert(without_blanks(whole) == line@);
            if end < len {
                assert(after_line(rest) =~= text@.skip(next as int));
            } else {
                assert(after_line(rest) =~= Seq::empty());
                assert(text@.skip(next as int) =~= Seq::empty());
            }
        }
        if line.len() > 0 {
            let bytes = match read_record(line, number) {
                Err(e) => {
                    return Err(e);
                },
                Ok(bytes) => bytes,
            };
            let kind: u8 = bytes[3];
            if kind == 0 {
                let ghost before = chunks@;
                let address: u64 = base + bytes[1] as u64 * 0x100 + bytes[2] as u64;
                let data = slice_to_vec(slice_subrange(bytes.as_slice(), 4, bytes.len() - 1));
                let ghost view = ChunkView { address: address as int, data: data@ };
                chunks.push(HexChunk { address, data });
                proof {
                    assert(chunk_views(chunks@) =~= chunk_views(before).push(view));
                    match hex_data(text@.skip(next as int), base as int, following) {
                        Ok(c) => {
                            assert(chunk_views(before) + (seq![view] + c) =~= chunk_views(chunks@)
                                + c);
                        },
                        Err(_) => {},
                    }
                }
            } else if kind == 1 {
                assert(chunk_views(chunks@) + Seq::<ChunkView>::empty() =~= chunk_views(chunks@));
                return Ok(chunks);
            } else if kind == 2 || kind == 4 {
                if bytes[0] != 2 {
                    return Err(HexError::Length(number));
                }
                let value: u64 = bytes[4] as u64 * 0x100 + bytes[5] as u64;
                base = if kind == 2 {
                    value * 0x10
                } else {
                    value * 0x1_0000
                };
            } else if kind != 3 && kind != 5 {
                return Err(HexError::RecordType(number));
            }
        }
        number = following;
        pos = next;
    }
    Err(HexError::MissingEnd)
}

/// Whether byte `k` of chunk `c` puts the value `v` at an address.
pub open spec fn puts(chunks: Seq<ChunkView>, c: int, k: int, address: int, v: u8) -> bool {
    &&& 0 <= c < chunks.len()
    &&& 0 <= k < chunks[c].data.len()
    &&& chunks[c].address + k == address
    &&& chunks[c].data[k] == v
}

/// Whether some chunk puts the value at the address.
pub open spec fn holds(chunks: Seq<ChunkView>, address: int, v: u8) -> bool {
    exists|c: int, k: int| puts(chunks, c, k, address, v)
}

/// Whether two chunks disagree about an address.
pub open spec fn disagree_at(chunks: Seq<ChunkView>, address: int) -> bool {
    exists|v: u8, w: u8| v != w && #[trigger] holds(chunks, address, v) && #[trigger] holds(
        chunks,
        address,
        w,
    )
}

/// Whether no chunk puts a value at the address.
pub open spec fn is_gap(chunks: Seq<ChunkView>, address: int) -> bool {
    forall|v: u8| !holds(chunks, address, v)
}

/// Whether `image` holds the data of the region that starts at `start`: each byte that some chunk
/// puts there, and erased flash (0xFF) everywhere else.
pub open spec fn is_region(chunks: Seq<ChunkView>, start: int, image: Seq<u8>) -> bool {
    forall|i: int|
        0 <= i < image.len() ==> (holds(chunks, start + i, #[trigger] image[i]) || image[i] == 0xFF
            && is_gap(chunks, start + i))
}

/// Whether byte `k0` of chunk `c0` stands before byte `k` of chunk `c` in the file.
pub open spec fn earlier(c0: int, k0: int, c: int, k: int) -> bool {
    c0 < c || c0 == c && k0 < k
}

/// Whether a byte that stands before byte `k` of chunk `c` puts the value at the address.
pub open spec fn holds_before(
    chunks: Seq<ChunkView>,
    address: int,
    v: u8,
    c: int,
    k: int,
) -> bool {
    exists|c0: int, k0: int| #[trigger] puts(chunks, c0, k0, address, v) && earlier(c0, k0, c, k)
}

/// Whether byte `k` of chunk `c` puts a value at an address that an earlier byte gave another value.
pub open spec fn clashes(chunks: Seq<ChunkView>, c: int, k: int, address: int) -> bool {
    exists|v: u8, w: u8|
        v != w && #[trigger] puts(chunks, c, k, address, v) && #[trigger] holds_before(
            chunks,
            address,
            w,
            c,
            k,
        )
}

/// Whether `address` is that of the first byte of the file that clashes inside a region.
pub open spec fn first_clash(chunks: Seq<ChunkView>, start: int, len: int, address: int) -> bool {
    &&& start <= address < start + len
    &&& exists|c: int, k: int| #[trigger]
        clashes(chunks, c, k, address) && forall|c2: int, k2: int, a2: int| #[trigger]
            clashes(chunks, c2, k2, a2) && start <= a2 < start + len ==> !earlier(c2, k2, c, k)
}

/// What is known of a region after some bytes of the chunks were placed.
spec fn placed(
    chunks: Seq<ChunkView>,
    done: int,
    within: int,
    start: int,
    image: Seq<u8>,
    set: Seq<bool>,
) -> bool {
    &&& image.len() == set.len()
    &&& forall|i: int|
        0 <= i < image.len() ==> if #[trigger] set[i] {
            holds_before(chunks, start + i, image[i], done, within)
        } else {
            image[i] == 0xFF
        }
    &&& forall|c: int, k: int, a: int, v: u8| #[trigger]
        puts(chunks, c, k, a, v) && start <= a < start + image.len() && (c < done || c == done && k
            < within) ==> set[a - start] && image[a - start] == v
}

proof fn lemma_placed_chunk(
    chunks: Seq<ChunkView>,
    c: int,
    n: int,
    start: int,
    image: Seq<u8>,
    set: Seq<bool>,
)
    requires
        0 <= c < chunks.len(),
        n == chunks[c].data.len(),
        placed(chunks, c, n, start, image, set),
    ensures
        placed(chunks, c + 1, 0, start, image, set),
{
    assert forall|i: int| 0 <= i < image.len() implies if #[trigger] set[i] {
        holds_before(chunks, start + i, image[i], c + 1, 0)
    } else {
        image[i] == 0xFF
    } by {
        let a = start + i;
        let v = image[i];
        if set[i] {
            assert(holds_before(chunks, a, v, c, n));
            let (c0, k0) = choose|c0: int, k0: int| #[trigger]
                puts(chunks, c0, k0, a, v) && earlier(c0, k0, c, n);
            assert(puts(chunks, c0, k0, a, v));
            assert(holds_before(chunks, a, v, c + 1, 0));
        }
    }
}

/// Places the data of a region of `len` bytes that starts at `start`. Data outside the region is
/// ignored, and gaps are erased flash. Chunks that disagree about an address of the region are
/// refused, with the address of the first byte that clashes with an earlier one.
pub fn place_region(chunks: &Vec<HexChunk>, start: u64, len: usize) -> (r: Result<
    Vec<u8>,
    HexError,
>)
    requires
        forall|c: int|
            0 <= c < chunks@.len() ==> (#[trigger] chunks@[c]).address + chunks@[c].data@.len()
                <= u64::MAX,
    ensures
        match r {
            Ok(image) => image@.len() == len && is_region(
                chunk_views(chunks@),
                start as int,
                image@,
            ) && forall|a: int|
                start <= a < start + len ==> !#[trigger] disagree_at(chunk_views(chunks@), a),
            Err(e) => e matches HexError::Conflict(a) && first_clash(
                chunk_views(chunks@),
                start as int,
                len as int,
                a as int,
            ),
        },
{
    let ghost views = chunk_views(chunks@);
    let mut image: Vec<u8> = vec![0xFFu8; len];
    let mut set: Vec<bool> = vec![false; len];
    let mut c: usize = 0;
    while c < chunks.len()
        invariant
            c <= chunks@.len(),
            views == chunk_views(chunks@),
            image@.len() == len,
            placed(views, c as int, 0, start as int, image@, set@),
            forall|c: int|
                0 <= c < chunks@.len() ==> (#[trigger] chunks@[c]).address + chunks@[c].data@.len()
                    <= u64::MAX,
        decreases chunks@.len() - c,
    {
        let n: usize = chunks[c].data.len();
        let address: u64 = chunks[c].address;
        let mut k: usize = 0;
        while k < n
            invariant
                c < chunks@.len(),
                k <= n == chunks@[c as int].data@.len(),
                address == chunks@[c as int].address,
                address + n <= u64::MAX,
                views == chunk_views(chunks@),
                image@.len() == len,
                placed(views, c as int, k as int, start as int, image@, set@),
            decreases n - k,
        {
            let a: u64 = address + k as u64;
            let b: u8 = chunks[c].data[k];
            let ghost old_image = image@;
            let ghost old_set = set@;
            assert(puts(views, c as int, k as int, a as int, b));
            assert(holds(views, a as int, b));
            if a >= start && a - start < len as u64 {
                let i: usize = (a - start) as usize;
                if set[i] && image[i] != b {
                    proof {
                        let w = image@[i as int];
                        assert(set@[i as int]);
                        assert(start + i == a);
                        assert(holds_before(views, a as int, w, c as int, k as int));
                        assert(clashes(views, c as int, k as int, a as int));
                        assert forall|c2: int, k2: int, a2: int| #[trigger]
                            clashes(views, c2, k2, a2) && start <= a2 < start + len implies !earlier(
                            c2,
                            k2,
                            c as int,
                            k as int,
                        ) by {
                            if earlier(c2, k2, c as int, k as int) {
                                let (v2, w2) = choose|v2: u8, w2: u8|
                                    v2 != w2 && #[trigger] puts(views, c2, k2, a2, v2)
                                        && #[trigger] holds_before(views, a2, w2, c2, k2);
                                let (c0, k0) = choose|c0: int, k0: int| #[trigger]
                                    puts(views, c0, k0, a2, w2) && earlier(c0, k0, c2, k2);
                                assert(puts(views, c0, k0, a2, w2));
                                assert(image@[a2 - start] == v2 && image@[a2 - start] == w2);
                            }
                        }
                    }
                    return Err(HexError::Conflict(a));
                }
                image.set(i, b);
                set.set(i, true);
            }
            proof {
                assert forall|i2: int| 0 <= i2 < image@.len() implies if #[trigger] set@[i2] {
                    holds_before(views, start + i2, image@[i2], c as int, k + 1)
                } else {
                    image@[i2] == 0xFF
                } by {
                    let a2 = start + i2;
                    let v = image@[i2];
                    if set@[i2] {
                        if a2 != a {
                            assert(old_set[i2] && old_image[i2] == v);
                            assert(holds_before(views, a2, v, c as int, k as int));
                            let (c0, k0) = choose|c0: int, k0: int| #[trigger]
                                puts(views, c0, k0, a2, v) && earlier(c0, k0, c as int, k as int);
                            assert(puts(views, c0, k0, a2, v));
                        }
                        assert(holds_before(views, a2, v, c as int, k + 1));
                    }
                }
                assert forall|c2: int, k2: int, a2: int, v: u8| #[trigger]
                    puts(views, c2, k2, a2, v) && start <= a2 < start + image@.len() && (c2 < c
                        || c2 == c && k2 < k + 1) implies set@[a2 - start] && image@[a2 - start]
                    == v by {
                    if c2 < c || k2 < k {
                        assert(old_set[a2 - start]);
                        assert(old_image[a2 - start] == v);
                    }
                }
            }
            k += 1;
        }
        proof {
            lemma_placed_chunk(views, c as int, n as int, start as int, image@, set@);
        }
        c += 1;
    }
    proof {
        assert forall|i: int| 0 <= i < len implies (holds(
            views,
            start + i,
            #[trigger] image@[i],
        ) || image@[i] == 0xFF && is_gap(views, start + i)) by {
            let a = start + i;
            if set@[i] {
                assert(holds_before(views, a, image@[i], c as int, 0));
                assert(holds(views, a, image@[i]));
            } else {
                assert forall|v: u8| !holds(views, a, v) by {
                    if holds(views, a, v) {
                        let (c2, k2) = choose|c2: int, k2: int| puts(views, c2, k2, a, v);
                        assert(puts(views, c2, k2, a, v));
                    }
                }
            }
        }
        assert forall|a: int| start <= a < start + len implies !#[trigger] disagree_at(
            views,
            a,
        ) by {
            if disagree_at(views, a) {
                let (v, w) = choose|v: u8, w: u8|
                    v != w && #[trigger] holds(views, a, v) && #[trigger] holds(views, a, w);
                let (c1, k1) = choose|c1: int, k1: int| puts(views, c1, k1, a, v);
                let (c2, k2) = choose|c2: int, k2: int| puts(views, c2, k2, a, w);
                assert(puts(views, c1, k1, a, v) && puts(views, c2, k2, a, w));
            }
        }
    }
    Ok(image)
}

proof fn lemma_chunk_addresses(text: Seq<u8>, base: int, number: u64)
    requires
        0 <= base <= 0xFFFF_0000,
    ensures
        hex_data(text, base, number) matches Ok(chunks) ==> forall|i: int|
            0 <= i < chunks.len() ==> 0 <= (#[trigger] chunks[i]).address <= 0xFFFF_FFFF
                && chunks[i].data.len() <= 255,
    decreases text.len(),
{
    lemma_line_end_inside(text);
    let next = if number < u64::MAX {
        (number + 1) as u64
    } else {
        number
    };
    if text.len() > 0 {
        let line = without_blanks(text.take(line_end(text)));
        let rest = after_line(text);
        lemma_chunk_addresses(rest, base, next);
        if line.len() > 0 && record(line, number) is Ok {
            let bytes = record(line, number)->Ok_0;
            if bytes[3] == 2 {
                lemma_chunk_addresses(rest, (bytes[4] * 0x100 + bytes[5]) * 0x10, next);
            } else if bytes[3] == 4 {
                lemma_chunk_addresses(rest, (bytes[4] * 0x100 + bytes[5]) * 0x1_0000, next);
            }
        }
    }
}

/// What extracting a region from a file gives.
pub open spec fn region_of_hex(
    text: Seq<u8>,
    start: int,
    len: int,
    r: Result<Seq<u8>, HexError>,
) -> bool {
    match hex_data(text, 0, 1) {
        Err(e) => r == Err::<Seq<u8>, HexError>(e),
        Ok(chunks) => match r {
            Ok(image) => image.len() == len && is_region(chunks, start, image) && forall|a: int|
                start <= a < start + len ==> !#[trigger] disagree_at(chunks, a),
            Err(e) => e matches HexError::Conflict(a) && first_clash(chunks, start, len, a as int),
        },
    }
}

/// Whether all data lies from `lo` up to `hi`, with some data at either end.
pub open spec fn is_extent(chunks: Seq<ChunkView>, lo: int, hi: int) -> bool {
    &&& forall|c: int|
        0 <= c < chunks.len() && (#[trigger] chunks[c]).data.len() > 0 ==> lo <= chunks[c].address
            && chunks[c].address + chunks[c].data.len() <= hi
    &&& exists|c: int|
        0 <= c < chunks.len() && (#[trigger] chunks[c]).data.len() > 0 && chunks[c].address == lo
    &&& exists|c: int|
        0 <= c < chunks.len() && (#[trigger] chunks[c]).data.len() > 0 && chunks[c].address
            + chunks[c].data.len() == hi
}

/// Whether a file's chunks hold no data.
pub open spec fn no_data(chunks: Seq<ChunkView>) -> bool {
    forall|c: int| 0 <= c < chunks.len() ==> (#[trigger] chunks[c]).data.len() == 0
}

/// Reads an Intel HEX file as one flat image, from its lowest address to its highest, with gaps
/// filled by erased flash.
pub fn flat_image_from_hex(text: &[u8]) -> (r: Result<Vec<u8>, HexError>)
    ensures
        match hex_data(text@, 0, 1) {
            Err(e) => r == Err::<Vec<u8>, HexError>(e),
            Ok(chunks) => if no_data(chunks) {
                r == Err::<Vec<u8>, HexError>(HexError::NoData)
            } else {
                exists|lo: int, hi: int|
                    #[trigger] is_extent(chunks, lo, hi) && if hi - lo > u32::MAX {
                        r == Err::<Vec<u8>, HexError>(HexError::Span)
                    } else {
                        region_of_hex(
                            text@,
                            lo,
                            hi - lo,
                            match r {
                                Ok(image) => Ok(image@),
                                Err(e) => Err(e),
                            },
                        )
                    }
            },
        },
{
    let chunks = match parse_hex(text) {
        Err(e) => {
            return Err(e);
        },
        Ok(chunks) => chunks,
    };
    let ghost views = chunk_views(chunks@);
    proof {
        lemma_chunk_addresses(text@, 0, 1);
        assert forall|c: int| 0 <= c < chunks@.len() implies (#[trigger] chunks@[c]).address
            + chunks@[c].data@.len() <= u64::MAX by {
            let all = hex_data(text@, 0, 1)->Ok_0;
            assert(all[c] == chunks@[c]@);
            assert(all[c].address <= 0xFFFF_FFFF && all[c].data.len() <= 255);
        }
    }
    let mut extent: Option<(u64, u64)> = None;
    let mut c: usize = 0;
    while c < chunks.len()
        invariant
            c <= chunks@.len(),
            views == chunk_views(chunks@),
            forall|c: int|
                0 <= c < chunks@.len() ==> (#[trigger] chunks@[c]).address + chunks@[c].data@.len()
                    <= u64::MAX,
            match extent {
                Some((lo, hi)) => lo < hi && is_extent(views.take(c as int), lo as int, hi as int),
                None => no_data(views.take(c as int)),
            },
        decreases chunks@.len() - c,
    {
        let a: u64 = chunks[c].address;
        let n: usize = chunks[c].data.len();
        let ghost before = views.take(c as int);
        let ghost after = views.take(c + 1);
        assert(after =~= before.push(views[c as int]));
        assert(views[c as int] == chunks@[c as int]@);
        if n > 0 {
            let end: u64 = a + n as u64;
            proof {
                assert(after[c as int].data.len() == n && after[c as int].address == a);
            }
            match extent {
                None => {
                    extent = Some((a, end));
                    proof {
                        assert forall|k: int|
                            0 <= k < after.len() && (#[trigger] after[k]).data.len() > 0 implies a
                            <= after[k].address && after[k].address + after[k].data.len() <= end by {
                            if k < c {
                                assert(after[k] == before[k]);
                            }
                        }
                        assert(is_extent(after, a as int, end as int));
                    }
                },
                Some((lo, hi)) => {
                    let new_lo: u64 = if a < lo {
                        a
                    } else {
                        lo
                    };
                    let new_hi: u64 = if end > hi {
                        end
                    } else {
                        hi
                    };
                    proof {
                        let first = choose|k: int|
                            0 <= k < before.len() && (#[trigger] before[k]).data.len() > 0
                                && before[k].address == lo;
                        let last = choose|k: int|
                            0 <= k < before.len() && (#[trigger] before[k]).data.len() > 0
                                && before[k].address + before[k].data.len() == hi;
                        assert(after[first] == before[first]);
                        assert(after[last] == before[last]);
                        assert forall|k: int|
                            0 <= k < after.len() && (#[trigger] after[k]).data.len() > 0 implies
                            new_lo <= after[k].address && after[k].address + after[k].data.len()
                            <= new_hi by {
                            if k < c {
                                assert(after[k] == before[k]);
                            }
                        }
                        assert(is_extent(after, new_lo as int, new_hi as int));
                    }
                    extent = Some((new_lo, new_hi));
                },
            }
        } else {
            proof {
                match extent {
                    None => {
                        assert forall|k: int| 0 <= k < after.len() implies (#[trigger] after[k]).data.len()
                            == 0 by {
                            if k < c {
                                assert(after[k] == before[k]);
                            }
                        }
                    },
                    Some((lo, hi)) => {
                        let first = choose|k: int|
                            0 <= k < before.len() && (#[trigger] before[k]).data.len() > 0
                                && before[k].address == lo;
                        let last = choose|k: int|
                            0 <= k < before.len() && (#[trigger] before[k]).data.len() > 0
                                && before[k].address + before[k].data.len() == hi;
                        assert(after[first] == before[first]);
                        assert(after[last] == before[last]);
                        assert forall|k: int|
                            0 <= k < after.len() && (#[trigger] after[k]).data.len() > 0 implies lo
                            <= after[k].address && after[k].address + after[k].data.len() <= hi by {
                            if k < c {
                                assert(after[k] == before[k]);
                            }
                        }
                    },
                }
            }
        }
        c += 1;
    }
    assert(views.take(c as int) =~= views);
    match extent {
        None => Err(HexError::NoData),
        Some((lo, hi)) => {
            proof {
                let k = choose|k: int|
                    0 <= k < views.len() && (#[trigger] views[k]).data.len() > 0 && views[k].address
                        == lo;
                assert(!no_data(views));
            }
            if hi - lo > 0xFFFF_FFFF {
                return Err(HexError::Span);
            }
            place_region(&chunks, lo, (hi - lo) as usize)
        },
    }
}

/// Extracts the bootloader region from an Intel HEX file: exactly the image's 40 KiB, with gaps
/// filled by erased flash and everything outside ignored.
pub fn extract_bootloader_region_from_hex(text: &[u8]) -> (r: Result<Vec<u8>, HexError>)
    ensures
        region_of_hex(
            text@,
            IMAGE_START as int,
            IMAGE_SIZE as int,
            match r {
                Ok(image) => Ok(image@),
                Err(e) => Err(e),
            },
        ),
{
    let chunks = match parse_hex(text) {
        Err(e) => {
            return Err(e);
        },
        Ok(chunks) => chunks,
    };
    proof {
        lemma_chunk_addresses(text@, 0, 1);
        assert forall|c: int| 0 <= c < chunks@.len() implies (#[trigger] chunks@[c]).address
            + chunks@[c].data@.len() <= u64::MAX by {
            let views = hex_data(text@, 0, 1)->Ok_0;
            assert(views[c] == chunks@[c]@);
            assert(views[c].address <= 0xFFFF_FFFF && views[c].data.len() <= 255);
        }
    }
    place_region(&chunks, IMAGE_START as u64, IMAGE_SIZE)
}

proof fn lemma_blanks(line: Seq<u8>, blanks: Seq<u8>)
    requires
        forall|i: int| 0 <= i < blanks.len() ==> is_blank(blanks[i]),
        line.len() > 0 ==> !is_blank(line.last()),
    ensures
        without_blanks(line + blanks) == line,
    decreases blanks.len(),
{
    let whole = line + blanks;
    if blanks.len() == 0 {
        assert(whole =~= line);
    } else {
        let fewer = blanks.drop_last();
        assert forall|i: int| 0 <= i < fewer.len() implies is_blank(fewer[i]) by {
            assert(fewer[i] == blanks[i]);
        }
        lemma_blanks(line, fewer);
        assert(whole.last() == blanks[blanks.len() - 1]);
        assert(whole.drop_last() =~= line + fewer);
    }
}

proof fn lemma_first_line(line: Seq<u8>, blanks: Seq<u8>, rest: Seq<u8>)
    requires
        forall|i: int| 0 <= i < blanks.len() ==> is_blank(blanks[i]),
        line.len() > 0 ==> !is_blank(line.last()),
        forall|i: int| 0 <= i < line.len() ==> line[i] != 0x0A,
    ensures
        ({
            let text = (line + blanks).push(0x0A) + rest;
            &&& without_blanks(text.take(line_end(text))) == line
            &&& after_line(text) == rest
        }),
{
    let whole = line + blanks;
    let text = whole.push(0x0A) + rest;
    assert forall|k: int| 0 <= k < whole.len() implies text[k] != 0x0A by {
        if k < line.len() {
            assert(text[k] == line[k]);
        } else {
            assert(text[k] == blanks[k - line.len()]);
        }
    }
    assert(text[whole.len() as int] == 0x0A);
    lemma_line_end(text, whole.len() as int);
    assert(text.take(whole.len() as int) =~= whole);
    lemma_blanks(line, blanks);
    assert(text.skip(whole.len() as int + 1) =~= rest);
}

/// The digits of a record: pairs of hexadecimal digits of either case behind a colon stand for their
/// bytes.
pub proof fn law_record_digits(line: Seq<u8>, bytes: Seq<u8>)
    requires
        line.len() == 1 + 2 * bytes.len(),
        line[0] == 0x3A,
        forall|i: int|
            0 <= i < bytes.len() ==> {
                let hi = (#[trigger] bytes[i]) as int / 16;
                let lo = bytes[i] as int % 16;
                let (h, l) = (line[1 + 2 * i] as char, line[2 + 2 * i] as char);
                (h == digit_char(hi) || h == lower_digit_char(hi)) && (l == digit_char(lo) || l
                    == lower_digit_char(lo))
            },
    ensures
        record_bytes(line) == Some(bytes),
{
    assert forall|i: int| 0 <= i < line.len() / 2 implies (#[trigger] byte_at(line, 1 + 2 * i))
        == Some(bytes[i]) by {
        let hi = bytes[i] as int / 16;
        let lo = bytes[i] as int % 16;
        assert(nibble(line[1 + 2 * i]) == Some(hi));
        assert(nibble(line[1 + 2 * i + 1]) == Some(lo));
        assert(hi * 16 + lo == bytes[i]);
    }
    assert(record_bytes(line)->0 =~= bytes);
}

proof fn lemma_record_line(line: Seq<u8>)
    requires
        record_bytes(line) is Some,
        record_bytes(line)->0.len() > 0,
    ensures
        line.len() > 0,
        !is_blank(line.last()),
        forall|j: int| 0 <= j < line.len() ==> line[j] != 0x0A,
{
    assert forall|j: int| 1 <= j < line.len() implies nibble(line[j]) is Some by {
        let i = (j - 1) / 2;
        assert(byte_at(line, 1 + 2 * i) is Some);
        assert(j == 1 + 2 * i || j == 2 + 2 * i);
    }
    assert(nibble(line[line.len() - 1]) is Some);
}

/// What a line of a file means. A blank line is skipped. A record whose bytes are not as many as its
/// count says, or do not add up to a multiple of 256, is refused. Type 0 puts its data at the base
/// plus its address, type 1 ends the file, types 2 and 4 set the base to their value times 16 and
/// times 65536, types 3 and 5 mean nothing, and others are refused. A file that does not end is
/// refused.
pub proof fn law_hex_lines(
    line: Seq<u8>,
    blanks: Seq<u8>,
    rest: Seq<u8>,
    bytes: Seq<u8>,
    base: int,
    number: u64,
)
    requires
        forall|i: int| 0 <= i < blanks.len() ==> is_blank(blanks[i]),
        record_bytes(line) == Some(bytes),
        bytes.len() > 0,
        number < u64::MAX,
    ensures
        ({
            let text = (line + blanks).push(0x0A) + rest;
            let meaning = hex_data(text, base, number);
            let next = (number + 1) as u64;
            let shaped = bytes.len() >= 5 && bytes.len() == bytes[0] + 5;
            let sound = shaped && byte_sum(bytes) % 256 == 0;
            let value = bytes[4] * 0x100 + bytes[5];
            &&& !shaped ==> meaning == Err::<Seq<ChunkView>, HexError>(HexError::Length(number))
            &&& shaped && !sound ==> meaning == Err::<Seq<ChunkView>, HexError>(
                HexError::Checksum(number),
            )
            &&& sound && bytes[3] == 0 ==> meaning == match hex_data(rest, base, next) {
                Ok(chunks) => Ok(
                    seq![
                        ChunkView {
                            address: base + bytes[1] * 0x100 + bytes[2],
                            data: bytes.subrange(4, 4 + bytes[0]),
                        },
                    ] + chunks,
                ),
                Err(e) => Err(e),
            }
            &&& sound && bytes[3] == 1 ==> meaning == Ok::<Seq<ChunkView>, HexError>(Seq::empty())
            &&& sound && bytes[3] == 2 && bytes[0] == 2 ==> meaning == hex_data(
                rest,
                value * 16,
                next,
            )
            &&& sound && bytes[3] == 4 && bytes[0] == 2 ==> meaning == hex_data(
                rest,
                value * 65536,
                next,
            )
            &&& sound && (bytes[3] == 3 || bytes[3] == 5) ==> meaning == hex_data(rest, base, next)
            &&& sound && (bytes[3] == 2 || bytes[3] == 4) && bytes[0] != 2 ==> meaning == Err::<
                Seq<ChunkView>,
                HexError,
            >(HexError::Length(number))
            &&& sound && bytes[3] > 5 ==> meaning == Err::<Seq<ChunkView>, HexError>(
                HexError::RecordType(number),
            )
            &&& hex_data(blanks.push(0x0A) + rest, base, number) == hex_data(rest, base, next)
            &&& hex_data(Seq::empty(), base, number) == Err::<Seq<ChunkView>, HexError>(
                HexError::MissingEnd,
            )
        }),
{
    lemma_record_line(line);
    lemma_first_line(line, blanks, rest);
    lemma_first_line(Seq::empty(), blanks, rest);
    assert(Seq::<u8>::empty() + blanks =~= blanks);
    let text = (line + blanks).push(0x0A) + rest;
    assert(text.len() > 0);
    assert((blanks.push(0x0A) + rest).len() > 0);
    if bytes.len() >= 5 && bytes.len() == bytes[0] + 5 {
        assert(bytes.subrange(4, bytes.len() - 1) == bytes.subrange(4, 4 + bytes[0]));
    }
}

/// The sum of a record counts every byte.
pub proof fn law_byte_sum(bytes: Seq<u8>, b: u8)
    ensures
        byte_sum(Seq::empty()) == 0,
        byte_sum(bytes.push(b)) == byte_sum(bytes) + b,
{
    assert(bytes.push(b).drop_last() =~= bytes);
}

/// The blanks are space, tab and carriage return.
pub proof fn law_blanks(b: u8)
    ensures
        is_blank(b) <==> b == 0x20 || b == 0x09 || b == 0x0D,
{
}

/// A region holds at each address what the data puts there and 0xFF where it puts nothing, so that no
/// two images are the same region of data that does not disagree.
pub proof fn law_region_is_determined(
    chunks: Seq<ChunkView>,
    start: int,
    a: Seq<u8>,
    b: Seq<u8>,
)
    requires
        a.len() == b.len(),
        is_region(chunks, start, a),
        is_region(chunks, start, b),
        forall|x: int| start <= x < start + a.len() ==> !#[trigger] disagree_at(chunks, x),
    ensures
        a == b,
        forall|c: int, k: int|
            0 <= c < chunks.len() && 0 <= k < chunks[c].data.len() && start <= chunks[c].address + k
                < start + a.len() ==> a[chunks[c].address + k - start]
                == #[trigger] chunks[c].data[k],
{
    assert forall|i: int| 0 <= i < a.len() implies a[i] == b[i] by {
        let x = start + i;
        assert(!disagree_at(chunks, x));
        let (p, q) = (a[i], b[i]);
        assert(holds(chunks, x, p) || p == 0xFF && is_gap(chunks, x));
        assert(holds(chunks, x, q) || q == 0xFF && is_gap(chunks, x));
        if p != q && holds(chunks, x, p) {
            assert(!is_gap(chunks, x));
            assert(holds(chunks, x, q));
            assert(false);
        }
        if p != q && holds(chunks, x, q) {
            assert(!is_gap(chunks, x));
            assert(holds(chunks, x, p));
        }
    }
    assert(a =~= b);
    assert forall|c: int, k: int|
        0 <= c < chunks.len() && 0 <= k < chunks[c].data.len() && start <= chunks[c].address + k
            < start + a.len() implies a[chunks[c].address + k - start]
        == #[trigger] chunks[c].data[k] by {
        let x = chunks[c].address + k;
        let v = chunks[c].data[k];
        assert(puts(chunks, c, k, x, v));
        assert(holds(chunks, x, v));
        let w = a[x - start];
        assert(!disagree_at(chunks, x));
        assert(holds(chunks, start + (x - start), w) || w == 0xFF && is_gap(
            chunks,
            start + (x - start),
        ));
        if w != v {
            assert(holds(chunks, x, w));
        }
    }
}

/// Where no chunk reaches, a region is erased flash: 0xFF.
pub proof fn law_gaps_are_erased(chunks: Seq<ChunkView>, start: int, image: Seq<u8>, i: int)
    requires
        is_region(chunks, start, image),
        0 <= i < image.len(),
        forall|c: int|
            0 <= c < chunks.len() ==> !((#[trigger] chunks[c]).address <= start + i
                < chunks[c].address + chunks[c].data.len()),
    ensures
        image[i] == 0xFF,
{
    let v = image[i];
    let a = start + i;
    if holds(chunks, a, v) {
        let (c, k) = choose|c: int, k: int| puts(chunks, c, k, a, v);
        assert(chunks[c].address <= a < chunks[c].address + chunks[c].data.len());
    }
}

} // verus!
