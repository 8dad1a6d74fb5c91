//! Reading numbers, addresses and keys from the command line.
use vstd::prelude::*;
use vstd::string::*;

use crate::text::{
    bytes_hex_lower, bytes_hex_upper, debug_text, dec, digit_char, hex_fixed, hex_fixed_lower,
    hex_lower, hex_upper, latin1, latin1_text, lower_digit_char, str_debug,
};

verus! {

/// Whether a character is Unicode white space.
pub open spec fn is_white(c: char) -> bool {
    let n = c as int;
    0x09 <= n <= 0x0D || n == 0x20 || n == 0x85 || n == 0xA0 || n == 0x1680 || 0x2000 <= n <= 0x200A
        || n == 0x2028 || n == 0x2029 || n == 0x202F || n == 0x205F || n == 0x3000
}

fn white(c: char) -> (r: bool)
    ensures
        r == is_white(c),
{
    let n: u32 = c as u32;
    0x09 <= n && n <= 0x0D || n == 0x20 || n == 0x85 || n == 0xA0 || n == 0x1680 || 0x2000 <= n && n
        <= 0x200A || n == 0x2028 || n == 0x2029 || n == 0x202F || n == 0x205F || n == 0x3000
}

/// A text without the white space at its start.
pub open spec fn trimmed_start(s: Seq<char>) -> Seq<char>
    decreases s.len(),
{
    if s.len() > 0 && is_white(s[0]) {
        trimmed_start(s.skip(1))
    } else {
        s
    }
}

/// A text without the white space at its end.
pub open spec fn trimmed_end(s: Seq<char>) -> Seq<char>
    decreases s.len(),
{
    if s.len() > 0 && is_white(s.last()) {
        trimmed_end(s.drop_last())
    } else {
        s
    }
}

/// A text without the white space at its ends.
pub open spec fn trimmed(s: Seq<char>) -> Seq<char> {
    trimmed_end(trimmed_start(s))
}

/// Takes the white space off both ends of a text.
pub fn trim(s: &str) -> (r: &str)
    ensures
        r@ == trimmed(s@),
{
    let len: usize = s.unicode_len();
    let mut a: usize = 0;
    assert(s@.skip(0) =~= s@);
    while a < len && white(s.get_char(a))
        invariant
            a <= len == s@.len(),
            trimmed_start(s@) == trimmed_start(s@.skip(a as int)),
        decreases len - a,
    {
        assert(s@.skip(a as int)[0] == s@[a as int]);
        assert(s@.skip(a as int).skip(1) =~= s@.skip(a + 1));
        a += 1;
    }
    let ghost rest = s@.skip(a as int);
    proof {
        if a < len {
            assert(rest[0] == s@[a as int]);
        }
        assert(trimmed_start(s@) == rest);
        assert(s@.subrange(a as int, len as int) =~= rest);
    }
    let mut b: usize = len;
    while b > a && white(s.get_char(b - 1))
        invariant
            a <= b <= len == s@.len(),
            rest == s@.skip(a as int),
            trimmed_end(rest) == trimmed_end(s@.subrange(a as int, b as int)),
        decreases b - a,
    {
        proof {
            let t = s@.subrange(a as int, b as int);
            assert(t.last() == s@[b - 1]);
            assert(t.drop_last() =~= s@.subrange(a as int, b - 1));
        }
        b -= 1;
    }
    proof {
        let t = s@.subrange(a as int, b as int);
        if b > a {
            assert(t.last() == s@[b - 1]);
        }
        assert(trimmed_end(rest) == t);
    }
    s.substring_char(a, b)
}

/// The value of a digit in a base of at most sixteen, in either case.
pub open spec fn digit_value(c: char, radix: int) -> Option<int> {
    let n = c as int;
    let v = if 0x30 <= n <= 0x39 {
        n - 0x30
    } else if 0x41 <= n <= 0x46 {
        n - 0x37
    } else if 0x61 <= n <= 0x66 {
        n - 0x57
    } else {
        radix
    };
    if v < radix {
        Some(v)
    } else {
        None
    }
}

/// The value of a text of digits; nothing where a character is not a digit.
pub open spec fn digits_value(s: Seq<char>, radix: int) -> Option<int>
    decreases s.len(),
{
    if s.len() == 0 {
        Some(0)
    } else {
        match (digits_value(s.drop_last(), radix), digit_value(s.last(), radix)) {
            (Some(v), Some(d)) => Some(v * radix + d),
            _ => None,
        }
    }
}

/// The number that a text stands for: one or more digits, with a plus sign before them or not, and
/// not above `max`.
pub open spec fn unsigned_value(s: Seq<char>, radix: int, max: int) -> Option<int> {
    let digits = if s.len() > 0 && s[0] == '+' {
        s.skip(1)
    } else {
        s
    };
    match digits_value(digits, radix) {
        Some(v) => if digits.len() > 0 && v <= max {
            Some(v)
        } else {
            None
        },
        None => None,
    }
}

fn digit_of(c: char, radix: u64) -> (r: Option<u64>)
    requires
        2 <= radix <= 16,
    ensures
        match r {
            Some(v) => digit_value(c, radix as int) == Some(v as int),
            None => digit_value(c, radix as int) is None,
        },
{
    let n: u32 = c as u32;
    let v: u64 = if 0x30 <= n && n <= 0x39 {
        (n - 0x30) as u64
    } else if 0x41 <= n && n <= 0x46 {
        (n - 0x37) as u64
    } else if 0x61 <= n && n <= 0x66 {
        (n - 0x57) as u64
    } else {
        radix
    };
    if v < radix {
        Some(v)
    } else {
        None
    }
}

proof fn lemma_digits_fail(s: Seq<char>, k: int, radix: int)
    requires
        0 <= k <= s.len(),
        digits_value(s.take(k), radix) is None,
    ensures
        digits_value(s, radix) is None,
    decreases s.len() - k,
{
    if k == s.len() {
        assert(s.take(k) =~= s);
    } else {
        assert(s.take(k + 1).drop_last() =~= s.take(k));
        lemma_digits_fail(s, k + 1, radix);
    }
}

proof fn lemma_digits_bounds(s: Seq<char>, radix: int)
    requires
        radix >= 2,
    ensures
        digits_value(s, radix) matches Some(v) ==> v >= 0,
    decreases s.len(),
{
    if s.len() > 0 {
        lemma_digits_bounds(s.drop_last(), radix);
        let v = digits_value(s.drop_last(), radix);
        if v is Some {
            assert(v->0 * radix >= 0) by (nonlinear_arith)
                requires
                    v->0 >= 0,
                    radix >= 2,
            ;
        }
    }
}

proof fn lemma_digits_large(s: Seq<char>, k: int, radix: int, max: int)
    requires
        0 <= k <= s.len(),
        radix >= 2,
        digits_value(s.take(k), radix) matches Some(v) && v > max,
        max >= 0,
    ensures
        digits_value(s, radix) matches Some(v) ==> v > max,
    decreases s.len() - k,
{
    if k == s.len() {
        assert(s.take(k) =~= s);
    } else {
        assert(s.take(k + 1).drop_last() =~= s.take(k));
        let v = digits_value(s.take(k), radix)->0;
        if digits_value(s.take(k + 1), radix) is None {
            lemma_digits_fail(s, k + 1, radix);
        } else {
            assert(v * radix >= v) by (nonlinear_arith)
                requires
                    v >= 0,
                    radix >= 2,
            ;
            lemma_digits_large(s, k + 1, radix, max);
        }
    }
}

/// Reads an unsigned number.
pub fn parse_unsigned(s: &str, radix: u64, max: u64) -> (r: Option<u64>)
    requires
        2 <= radix <= 16,
        max <= 0xFFFF_FFFF,
    ensures
        match r {
            Some(v) => unsigned_value(s@, radix as int, max as int) == Some(v as int),
            None => unsigned_value(s@, radix as int, max as int) is None,
        },
{
    let len: usize = s.unicode_len();
    let start: usize = if len > 0 && s.get_char(0) == '+' {
        1
    } else {
        0
    };
    let ghost digits = s@.skip(start as int);
    assert(start == 0 ==> digits =~= s@);
    if start == len {
        return None;
    }
    let mut value: u64 = 0;
    let mut i: usize = start;
    assert(digits.take(0) =~= Seq::empty());
    while i < len
        invariant
            start <= i <= len == s@.len(),
            start <= 1,
            digits == s@.skip(start as int),
            unsigned_value(s@, radix as int, max as int) == match digits_value(
                digits,
                radix as int,
            ) {
                Some(v) => if digits.len() > 0 && v <= max {
                    Some(v)
                } else {
                    None
                },
                None => None,
            },
            2 <= radix <= 16,
            max <= 0xFFFF_FFFF,
            value <= max,
            digits_value(digits.take(i - start), radix as int) == Some(value as int),
        decreases len - i,
    {
        let c: char = s.get_char(i);
        let ghost k = i - start;
        proof {
            assert(digits.take(k + 1).drop_last() =~= digits.take(k));
            assert(digits.take(k + 1).last() == c);
        }
        let d: u64 = match digit_of(c, radix) {
            None => {
                proof {
                    lemma_digits_fail(digits, k + 1, radix as int);
                }
                return None;
            },
            Some(d) => d,
        };
        assert(value * radix <= 0xFFFF_FFFF * 16) by (nonlinear_arith)
            requires
                value <= 0xFFFF_FFFF,
                radix <= 16,
        ;
        let next: u64 = value * radix + d;
        if next > max {
            proof {
                lemma_digits_large(digits, k + 1, radix as int, max as int);
            }
            return None;
        }
        value = next;
        i += 1;
    }
    assert(digits.take(i - start) =~= digits);
    Some(value)
}

/// The text that stands for no number.
#[derive(Clone, Debug, PartialEq, Eq)]
pub struct NumberError {
    pub text: String,
}

impl NumberError {
    /// Writes the error's message.
    pub fn to_string(&self) -> (s: String)
        ensures
            s@ == "not a valid number: "@ + str_debug(self.text@),
    {
        let mut s = String::from_str("not a valid number: ");
        s.append(debug_text(self.text.as_str()).as_str());
        s
    }
}

/// The 32-bit number that a text stands for: hexadecimal behind `0x` or `0X`, else decimal.
pub open spec fn auto_value(s: Seq<char>) -> Option<int> {
    let t = trimmed(s);
    if t.len() >= 2 && t[0] == '0' && (t[1] == 'x' || t[1] == 'X') {
        unsigned_value(t.skip(2), 16, u32::MAX as int)
    } else {
        unsigned_value(t, 10, u32::MAX as int)
    }
}

/// Reads a 32-bit number in decimal, or in hexadecimal behind `0x`.
pub fn parse_u32_auto(s: &str) -> (r: Result<u32, NumberError>)
    ensures
        match r {
            Ok(v) => auto_value(s@) == Some(v as int),
            Err(e) => auto_value(s@) is None && e.text@ == trimmed(s@),
        },
{
    let t = trim(s);
    let len: usize = t.unicode_len();
    let value = if len >= 2 && t.get_char(0) == '0' && (t.get_char(1) == 'x' || t.get_char(1)
        == 'X') {
        let hex = t.substring_char(2, len);
        assert(hex@ =~= t@.skip(2));
        parse_unsigned(hex, 16, 0xFFFF_FFFF)
    } else {
        parse_unsigned(t, 10, 0xFFFF_FFFF)
    };
    match value {
        Some(v) => Ok(v as u32),
        None => Err(NumberError { text: String::from_str(t) }),
    }
}

/// The port of the seeder where an address names none.
pub const DEFAULT_PORT: u16 = 5001;

/// Whether `i` is the place of the last colon of a text.
pub open spec fn is_last_colon(s: Seq<char>, i: int) -> bool {
    0 <= i < s.len() && s[i] == ':' && forall|j: int| i < j < s.len() ==> s[j] != ':'
}

/// The host and port of an address `host[:port]`, split at the last colon. Nothing where what
/// follows the colon is no port.
pub fn split_address(address: &str) -> (r: Option<(String, u16)>)
    ensures
        ({
            let s = address@;
            if s.contains(':') {
                exists|i: int|
                    #[trigger] is_last_colon(s, i) && match r {
                        Some((host, port)) => host@ == s.take(i) && unsigned_value(
                            s.skip(i + 1),
                            10,
                            u16::MAX as int,
                        ) == Some(port as int),
                        None => unsigned_value(s.skip(i + 1), 10, u16::MAX as int) is None,
                    }
            } else {
                r matches Some((host, port)) && host@ == s && port == DEFAULT_PORT
            }
        }),
{
    let len: usize = address.unicode_len();
    let mut i: usize = len;
    while i > 0 && address.get_char(i - 1) != ':'
        invariant
            i <= len == address@.len(),
            forall|j: int| i <= j < len ==> address@[j] != ':',
        decreases i,
    {
        i -= 1;
    }
    if i == 0 {
        assert(!address@.contains(':'));
        return Some((String::from_str(address), DEFAULT_PORT));
    }
    let host = address.substring_char(0, i - 1);
    let port = address.substring_char(i, len);
    proof {
        assert(address@.contains(address@[i - 1]));
        assert(is_last_colon(address@, i - 1));
        assert(host@ =~= address@.take(i - 1));
        assert(port@ =~= address@.skip(i as int));
    }
    match parse_unsigned(port, 10, 0xFFFF) {
        None => None,
        Some(v) => Some((String::from_str(host), v as u16)),
    }
}

/// The byte that digits `2 * i` and `2 * i + 1` of a text stand for.
pub open spec fn pair_value(t: Seq<char>, i: int) -> Option<int> {
    match (digit_value(t[2 * i], 16), digit_value(t[2 * i + 1], 16)) {
        (Some(hi), Some(lo)) => Some(hi * 16 + lo),
        _ => None,
    }
}

/// Whether a text of 64 hexadecimal digits stands for the key.
pub open spec fn is_hex_key(t: Seq<char>, key: Seq<u8>) -> bool {
    &&& t.len() == 64
    &&& key.len() == 32
    &&& forall|i: int| 0 <= i < 32 ==> #[trigger] pair_value(t, i) == Some(key[i] as int)
}

/// Reads a key of 32 bytes in hexadecimal, with white space around it or not.
pub fn parse_hex_key(s: &str) -> (r: Option<[u8; 32]>)
    ensures
        match r {
            Some(key) => is_hex_key(trimmed(s@), key@),
            None => forall|key: Seq<u8>| !is_hex_key(trimmed(s@), key),
        },
{
    let t = trim(s);
    if t.unicode_len() != 64 {
        return None;
    }
    let mut key: [u8; 32] = [0u8; 32];
    let mut i: usize = 0;
    while i < 32
        invariant
            i <= 32,
            t@ == trimmed(s@),
            t@.len() == 64,
            forall|k: int|
                0 <= k < i ==> #[trigger] pair_value(t@, k) == Some(key@[k] as int),
        decreases 32 - i,
    {
        match (digit_of(t.get_char(2 * i), 16), digit_of(t.get_char(2 * i + 1), 16)) {
            (Some(hi), Some(lo)) => {
                key[i] = (hi * 16 + lo) as u8;
            },
            _ => {
                proof {
                    assert forall|k: Seq<u8>| !is_hex_key(trimmed(s@), k) by {
                        if is_hex_key(trimmed(s@), k) {
                            assert(pair_value(t@, i as int) is None);
                        }
                    }
                }
                return None;
            },
        }
        i += 1;
    }
    Some(key)
}

/// Whether every byte is ASCII.
pub open spec fn is_ascii_bytes(raw: Seq<u8>) -> bool {
    forall|i: int| 0 <= i < raw.len() ==> (#[trigger] raw[i]) < 0x80
}

/// Whether a file holds the key: 32 bytes as they are, or else ASCII text of 64 hexadecimal digits
/// with white space around them or not.
pub open spec fn holds_key(raw: Seq<u8>, key: Seq<u8>) -> bool {
    if raw.len() == 32 {
        key == raw
    } else {
        is_ascii_bytes(raw) && is_hex_key(trimmed(latin1(raw)), key)
    }
}

/// Reads a key file: 32 raw bytes, or the key in hexadecimal as text.
pub fn load_key32(raw: &[u8]) -> (r: Option<[u8; 32]>)
    ensures
        match r {
            Some(key) => holds_key(raw@, key@),
            None => forall|key: Seq<u8>| !holds_key(raw@, key),
        },
{
    if raw.len() == 32 {
        let mut key: [u8; 32] = [0u8; 32];
        let mut i: usize = 0;
        while i < 32
            invariant
                i <= 32,
                raw@.len() == 32,
                forall|k: int| 0 <= k < i ==> key@[k] == raw@[k],
            decreases 32 - i,
        {
            key[i] = raw[i];
            i += 1;
        }
        assert(key@ =~= raw@);
        return Some(key);
    }
    let mut i: usize = 0;
    while i < raw.len()
        invariant
            i <= raw@.len(),
            raw@.len() != 32,
            forall|k: int| 0 <= k < i ==> (#[trigger] raw@[k]) < 0x80,
        decreases raw@.len() - i,
    {
        if raw[i] >= 0x80 {
            return None;
        }
        i += 1;
    }
    let text = latin1_text(raw);
    let r = parse_hex_key(text.as_str());
    assert(r is None ==> forall|key: Seq<u8>| !holds_key(raw@, key)) by {
        if r is None {
            assert forall|key: Seq<u8>| !holds_key(raw@, key) by {
                assert(!is_hex_key(trimmed(text@), key));
            }
        }
    }
    r
}

proof fn lemma_trim_start(before: Seq<char>, t: Seq<char>)
    requires
        forall|i: int| 0 <= i < before.len() ==> is_white(before[i]),
        t.len() > 0 ==> !is_white(t[0]),
    ensures
        trimmed_start(before + t) == t,
    decreases before.len(),
{
    let whole = before + t;
    if before.len() == 0 {
        assert(whole =~= t);
    } else {
        let fewer = before.skip(1);
        assert forall|i: int| 0 <= i < fewer.len() implies is_white(fewer[i]) by {
            assert(fewer[i] == before[i + 1]);
        }
        lemma_trim_start(fewer, t);
        assert(whole[0] == before[0]);
        assert(whole.skip(1) =~= fewer + t);
    }
}

proof fn lemma_trim_end(t: Seq<char>, behind: Seq<char>)
    requires
        forall|i: int| 0 <= i < behind.len() ==> is_white(behind[i]),
        t.len() > 0 ==> !is_white(t.last()),
    ensures
        trimmed_end(t + behind) == t,
    decreases behind.len(),
{
    let whole = t + behind;
    if behind.len() == 0 {
        assert(whole =~= t);
    } else {
        let fewer = behind.drop_last();
        assert forall|i: int| 0 <= i < fewer.len() implies is_white(fewer[i]) by {
            assert(fewer[i] == behind[i]);
        }
        lemma_trim_end(t, fewer);
        assert(whole.last() == behind[behind.len() - 1]);
        assert(whole.drop_last() =~= t + fewer);
    }
}

/// White space around a text is taken off, and the text is kept as it is.
pub proof fn law_trim_keeps_text(before: Seq<char>, t: Seq<char>, behind: Seq<char>)
    requires
        forall|i: int| 0 <= i < before.len() ==> is_white(before[i]),
        forall|i: int| 0 <= i < behind.len() ==> is_white(behind[i]),
        t.len() > 0,
        !is_white(t[0]),
        !is_white(t.last()),
    ensures
        trimmed(before + t + behind) == t,
        is_white(' ') && is_white('\t') && is_white('\n') && is_white('\r'),
{
    lemma_trim_start(before, t + behind);
    assert(before + t + behind =~= before + (t + behind));
    lemma_trim_end(t, behind);
}

proof fn lemma_dec_value(n: int)
    requires
        n >= 0,
    ensures
        dec(n).len() > 0,
        digits_value(dec(n), 10) == Some(n),
        forall|i: int| 0 <= i < dec(n).len() ==> '0' <= #[trigger] dec(n)[i] <= '9',
    decreases n,
{
    let t = dec(n);
    if n < 10 {
        assert(t.drop_last() =~= Seq::empty());
        assert(t.last() == digit_char(n));
        assert(digits_value(Seq::<char>::empty(), 10) == Some(0int));
    } else {
        lemma_dec_value(n / 10);
        assert(t.drop_last() =~= dec(n / 10));
        assert(t.last() == digit_char(n % 10));
        assert forall|i: int| 0 <= i < t.len() implies '0' <= #[trigger] t[i] <= '9' by {
            if i < dec(n / 10).len() {
                assert(t[i] == dec(n / 10)[i]);
            }
        }
    }
}

proof fn lemma_hex_value(n: int)
    requires
        n >= 0,
    ensures
        hex_upper(n).len() > 0,
        digits_value(hex_upper(n), 16) == Some(n),
        hex_lower(n).len() > 0,
        digits_value(hex_lower(n), 16) == Some(n),
        forall|i: int| 0 <= i < hex_upper(n).len() ==> '0' <= #[trigger] hex_upper(n)[i] <= 'F',
        forall|i: int| 0 <= i < hex_lower(n).len() ==> '0' <= #[trigger] hex_lower(n)[i] <= 'f',
    decreases n,
{
    let u = hex_upper(n);
    let l = hex_lower(n);
    if n < 16 {
        assert(u.drop_last() =~= Seq::empty());
        assert(l.drop_last() =~= Seq::empty());
        assert(u.last() == digit_char(n) && l.last() == lower_digit_char(n));
        assert(digits_value(Seq::<char>::empty(), 16) == Some(0int));
    } else {
        lemma_hex_value(n / 16);
        assert(u.drop_last() =~= hex_upper(n / 16));
        assert(l.drop_last() =~= hex_lower(n / 16));
        assert(u.last() == digit_char(n % 16) && l.last() == lower_digit_char(n % 16));
        assert forall|i: int| 0 <= i < u.len() implies '0' <= #[trigger] u[i] <= 'F' by {
            if i < hex_upper(n / 16).len() {
                assert(u[i] == hex_upper(n / 16)[i]);
            }
        }
        assert forall|i: int| 0 <= i < l.len() implies '0' <= #[trigger] l[i] <= 'f' by {
            if i < hex_lower(n / 16).len() {
                assert(l[i] == hex_lower(n / 16)[i]);
            }
        }
    }
}

/// Numbers read back: one in decimal, and one in hexadecimal of either case behind `0x` or `0X`, with
/// or without white space around it, is the number itself where it fits 32 bits, and none otherwise.
pub proof fn law_numbers_read_back(n: int, before: Seq<char>, behind: Seq<char>, x: char)
    requires
        n >= 0,
        forall|i: int| 0 <= i < before.len() ==> is_white(before[i]),
        forall|i: int| 0 <= i < behind.len() ==> is_white(behind[i]),
        x == 'x' || x == 'X',
    ensures
        ({
            let want = if n <= 0xFFFF_FFFF {
                Some(n)
            } else {
                None
            };
            &&& auto_value(before + dec(n) + behind) == want
            &&& auto_value(before + (seq!['0', x] + hex_upper(n)) + behind) == want
            &&& auto_value(before + (seq!['0', x] + hex_lower(n)) + behind) == want
        }),
{
    let d = dec(n);
    lemma_dec_value(n);
    lemma_hex_value(n);
    assert('0' <= d[0] <= '9' && '0' <= d[d.len() - 1] <= '9');
    law_trim_keeps_text(before, d, behind);
    if d.len() >= 2 {
        assert('0' <= d[1] <= '9');
    }
    let u = seq!['0', x] + hex_upper(n);
    let l = seq!['0', x] + hex_lower(n);
    assert(u.last() == hex_upper(n)[hex_upper(n).len() - 1]);
    assert(l.last() == hex_lower(n)[hex_lower(n).len() - 1]);
    assert(u[0] == '0' && l[0] == '0');
    assert(!is_white(u.last()) && !is_white(l.last()));
    law_trim_keeps_text(before, u, behind);
    law_trim_keeps_text(before, l, behind);
    assert(u.skip(2) =~= hex_upper(n));
    assert(l.skip(2) =~= hex_lower(n));
    assert(u[1] == x && l[1] == x);
    assert('0' <= hex_upper(n)[0] <= 'F' && '0' <= hex_lower(n)[0] <= 'f');
}

/// What is no number is refused: no text with a character that is no digit of the base, and no empty
/// one. A plus sign before the digits is allowed.
pub proof fn law_not_a_number(s: Seq<char>, radix: int, max: int, i: int)
    requires
        2 <= radix <= 16,
    ensures
        unsigned_value(Seq::empty(), radix, max) is None,
        1 <= i < s.len() && digit_value(s[i], radix) is None ==> unsigned_value(s, radix, max) is None,
        s.len() > 0 && s[0] != '+' && digit_value(s[0], radix) is None ==> unsigned_value(
            s,
            radix,
            max,
        ) is None,
        s.len() > 0 && s[0] != '+' ==> unsigned_value(seq!['+'] + s, radix, max) == unsigned_value(
            s,
            radix,
            max,
        ),
{
    if 1 <= i < s.len() && digit_value(s[i], radix) is None {
        if s[0] == '+' {
            assert(s.skip(1)[i - 1] == s[i]);
            lemma_bad_digit(s.skip(1), radix, i - 1);
        } else {
            lemma_bad_digit(s, radix, i);
        }
    }
    if s.len() > 0 && digit_value(s[0], radix) is None {
        lemma_bad_digit(s, radix, 0);
    }
    if s.len() > 0 {
        assert((seq!['+'] + s).skip(1) =~= s);
    }
}

proof fn lemma_bad_digit(s: Seq<char>, radix: int, i: int)
    requires
        0 <= i < s.len(),
        digit_value(s[i], radix) is None,
    ensures
        digits_value(s, radix) is None,
{
    assert(s.take(i + 1).drop_last() =~= s.take(i));
    assert(s.take(i + 1).last() == s[i]);
    lemma_digits_fail(s, i + 1, radix);
}

/// The digits and their values: `0` to `9`, and in base sixteen `a` to `f` of either case.
pub proof fn law_digit_values(c: char)
    ensures
        digit_value(c, 10) == if '0' <= c <= '9' {
            Some(c as int - '0' as int)
        } else {
            None
        },
        digit_value(c, 16) == if '0' <= c <= '9' {
            Some(c as int - '0' as int)
        } else if 'a' <= c <= 'f' {
            Some(c as int - 'a' as int + 10)
        } else if 'A' <= c <= 'F' {
            Some(c as int - 'A' as int + 10)
        } else {
            None
        },
{
}

/// A key reads back: 32 bytes written in hexadecimal of either case, as text with white space around
/// it or not, are those bytes. 32 bytes as they are are the key itself.
pub proof fn law_key_reads_back(key: Seq<u8>, before: Seq<char>, behind: Seq<char>)
    requires
        key.len() == 32,
        forall|i: int| 0 <= i < before.len() ==> is_white(before[i]),
        forall|i: int| 0 <= i < behind.len() ==> is_white(behind[i]),
    ensures
        is_hex_key(trimmed(before + bytes_hex_upper(key) + behind), key),
        is_hex_key(trimmed(before + bytes_hex_lower(key) + behind), key),
        holds_key(key, key),
{
    let u = bytes_hex_upper(key);
    let l = bytes_hex_lower(key);
    assert(!is_white(u[0]) && !is_white(u[63]) && !is_white(l[0]) && !is_white(l[63]));
    law_trim_keeps_text(before, u, behind);
    law_trim_keeps_text(before, l, behind);
    assert forall|i: int| 0 <= i < 32 implies #[trigger] pair_value(u, i) == Some(key[i] as int)
        && pair_value(l, i) == Some(key[i] as int) by {
        assert(u[2 * i] == digit_char(key[i] as int / 16));
        assert(u[2 * i + 1] == digit_char(key[i] as int % 16));
        assert(l[2 * i] == lower_digit_char(key[i] as int / 16));
        assert(l[2 * i + 1] == lower_digit_char(key[i] as int % 16));
    }
    assert forall|i: int| 0 <= i < 32 implies #[trigger] pair_value(l, i) == Some(key[i] as int) by {
        assert(pair_value(u, i) == Some(key[i] as int));
    }
}

/// A file holds at most one key.
pub proof fn law_key_is_unique(raw: Seq<u8>, a: Seq<u8>, b: Seq<u8>)
    requires
        holds_key(raw, a),
        holds_key(raw, b),
    ensures
        a == b,
        a.len() == 32,
{
    if raw.len() != 32 {
        let t = trimmed(latin1(raw));
        assert forall|i: int| 0 <= i < 32 implies a[i] == b[i] by {
            assert(pair_value(t, i) == Some(a[i] as int));
        }
        assert(a =~= b);
    }
}

/// A port reads back: the host and a number of at most 65535 in decimal behind a colon.
pub proof fn law_port_reads_back(port: int)
    requires
        0 <= port,
    ensures
        unsigned_value(dec(port), 10, u16::MAX as int) == if port <= 65535 {
            Some(port)
        } else {
            None
        },
        DEFAULT_PORT == 5001,
{
    lemma_dec_value(port);
    assert('0' <= dec(port)[0] <= '9');
}

/// Numbers of a fixed width read back: eight hexadecimal digits of either case stand for their 32-bit
/// number, four for a 16-bit one and two for a byte.
pub proof fn law_fixed_width_reads_back(n: int, width: nat)
    requires
        0 <= n,
        width == 8 && n <= 0xFFFF_FFFF || width == 4 && n <= 0xFFFF || width == 2 && n <= 0xFF,
    ensures
        hex_fixed(n, width).len() == width,
        hex_fixed_lower(n, width).len() == width,
        digits_value(hex_fixed(n, width), 16) == Some(n),
        digits_value(hex_fixed_lower(n, width), 16) == Some(n),
{
    lemma_fixed(n, width);
    reveal_with_fuel(kept, 9);
    assert(kept(n, width) == n);
}

/// The value of the last `width` hexadecimal digits of a number.
spec fn kept(n: int, width: nat) -> int
    decreases width,
{
    if width == 0 {
        0
    } else {
        kept(n / 16, (width - 1) as nat) * 16 + n % 16
    }
}

proof fn lemma_fixed(n: int, width: nat)
    requires
        0 <= n,
    ensures
        hex_fixed(n, width).len() == width,
        hex_fixed_lower(n, width).len() == width,
        digits_value(hex_fixed(n, width), 16) == Some(kept(n, width)),
        digits_value(hex_fixed_lower(n, width), 16) == Some(kept(n, width)),
    decreases width,
{
    if width > 0 {
        let w = (width - 1) as nat;
        lemma_fixed(n / 16, w);
        let u = hex_fixed(n, width);
        let l = hex_fixed_lower(n, width);
        assert(u.drop_last() =~= hex_fixed(n / 16, w));
        assert(l.drop_last() =~= hex_fixed_lower(n / 16, w));
        assert(u.last() == digit_char(n % 16) && l.last() == lower_digit_char(n % 16));
    }
}

/// A key file reads back: the key's text in hexadecimal of either case, as ASCII bytes with a newline
/// behind it or not, is a file that holds the key.
pub proof fn law_key_file_reads_back(key: Seq<u8>, newline: bool)
    requires
        key.len() == 32,
    ensures
        ({
            let behind: Seq<u8> = if newline {
                seq![0x0Au8]
            } else {
                Seq::empty()
            };
            let file = |t: Seq<char>| Seq::new(64, |i: int| t[i] as u8) + behind;
            &&& holds_key(file(bytes_hex_upper(key)), key)
            &&& holds_key(file(bytes_hex_lower(key)), key)
        }),
{
    let behind: Seq<u8> = if newline {
        seq![0x0Au8]
    } else {
        Seq::empty()
    };
    let tail = latin1(behind);
    assert forall|i: int| 0 <= i < tail.len() implies is_white(tail[i]) by {}
    let (u, l) = (bytes_hex_upper(key), bytes_hex_lower(key));
    let fu = Seq::new(64, |i: int| u[i] as u8) + behind;
    let fl = Seq::new(64, |i: int| l[i] as u8) + behind;
    assert(latin1(fu) =~= Seq::<char>::empty() + u + tail);
    assert(latin1(fl) =~= Seq::<char>::empty() + l + tail);
    law_key_reads_back(key, Seq::empty(), tail);
    assert(is_ascii_bytes(fu) && is_ascii_bytes(fl));
}

} // verus!
