//! Dotted firmware versions packed into 32 bits.
use vstd::prelude::*;
use vstd::string::*;

use crate::text::{debug_text, dec, digit_char, push_dec, str_debug};

verus! {

/// Why a dotted version is refused; each variant holds the text that was given.
#[derive(Clone, Debug, PartialEq, Eq)]
pub enum VersionError {
    Bad(String),
    TooLarge(String),
}

/// What is wrong with a version component.
pub enum VersionFault {
    Bad,
    TooLarge,
}

impl VersionError {
    pub open spec fn fault(self) -> VersionFault {
        match self {
            VersionError::Bad(_) => VersionFault::Bad,
            VersionError::TooLarge(_) => VersionFault::TooLarge,
        }
    }

    /// The text that was refused.
    pub open spec fn text(self) -> Seq<char> {
        match self {
            VersionError::Bad(s) => s@,
            VersionError::TooLarge(s) => s@,
        }
    }

    /// The message of the error.
    pub open spec fn message(self) -> Seq<char> {
        match self {
            VersionError::Bad(s) => "bad version: "@ + str_debug(s@),
            VersionError::TooLarge(s) => "version component too large: "@ + str_debug(s@),
        }
    }

    /// Writes the error's message.
    pub fn to_string(&self) -> (r: String)
        ensures
            r@ == self.message(),
    {
        match self {
            VersionError::Bad(s) => {
                let mut out = String::from_str("bad version: ");
                out.append(debug_text(s.as_str()).as_str());
                out
            },
            VersionError::TooLarge(s) => {
                let mut out = String::from_str("version component too large: ");
                out.append(debug_text(s.as_str()).as_str());
                out
            },
        }
    }
}

/// The parts of a text between its dots.
pub open spec fn split_dots(s: Seq<char>) -> Seq<Seq<char>>
    decreases s.len(),
{
    if s.len() == 0 {
        seq![Seq::empty()]
    } else {
        let before = split_dots(s.drop_last());
        if s.last() == '.' {
            before.push(Seq::empty())
        } else {
            before.drop_last().push(before.last().push(s.last()))
        }
    }
}

/// Whether a text is one or more decimal digits.
pub open spec fn is_number(t: Seq<char>) -> bool {
    t.len() > 0 && all_digits(t)
}

pub open spec fn all_digits(t: Seq<char>) -> bool {
    forall|i: int| 0 <= i < t.len() ==> '0' <= #[trigger] t[i] <= '9'
}

/// The value of a text of decimal digits.
pub open spec fn number_value(t: Seq<char>) -> int
    decreases t.len(),
{
    if t.len() == 0 {
        0
    } else {
        number_value(t.drop_last()) * 10 + (t.last() as int - 0x30)
    }
}

/// What is wrong with one component.
pub open spec fn component_fault(t: Seq<char>) -> Option<VersionFault> {
    if !is_number(t) {
        Some(VersionFault::Bad)
    } else if number_value(t) > u32::MAX {
        Some(VersionFault::TooLarge)
    } else {
        None
    }
}

/// The first fault among the first four components, from `i` on.
pub open spec fn first_fault(parts: Seq<Seq<char>>, i: int) -> Option<VersionFault>
    decreases 4 - i,
{
    if i >= 4 || i >= parts.len() {
        None
    } else if component_fault(parts[i]) is Some {
        component_fault(parts[i])
    } else {
        first_fault(parts, i + 1)
    }
}

/// A number clamped to a byte.
pub open spec fn byte_clamp(n: int) -> int {
    if n > 0xFF {
        0xFF
    } else {
        n
    }
}

/// Component `i` clamped to a byte; zero where there is none.
pub open spec fn component_byte(parts: Seq<Seq<char>>, i: int) -> int {
    if i < parts.len() {
        byte_clamp(number_value(parts[i]))
    } else {
        0
    }
}

/// The first four components as the bytes of a number, the first one highest.
pub open spec fn packed_parts(parts: Seq<Seq<char>>) -> int {
    component_byte(parts, 0) * 0x100_0000 + component_byte(parts, 1) * 0x1_0000 + component_byte(
        parts,
        2,
    ) * 0x100 + component_byte(parts, 3)
}

proof fn lemma_first_fault(parts: Seq<Seq<char>>, from: int, k: int)
    requires
        0 <= from <= k <= 4,
        k <= parts.len(),
        forall|i: int| from <= i < k ==> component_fault(#[trigger] parts[i]) is None,
    ensures
        first_fault(parts, from) == first_fault(parts, k),
    decreases k - from,
{
    if from < k {
        assert(component_fault(parts[from]) is None);
        lemma_first_fault(parts, from + 1, k);
    }
}

proof fn lemma_split_len(s: Seq<char>)
    ensures
        split_dots(s).len() >= 1,
    decreases s.len(),
{
    if s.len() > 0 {
        lemma_split_len(s.drop_last());
    }
}

proof fn lemma_split_prefix(s: Seq<char>, j: int)
    requires
        0 <= j <= s.len(),
    ensures
        split_dots(s.take(j)).len() <= split_dots(s).len(),
        forall|i: int|
            0 <= i < split_dots(s.take(j)).len() - 1 ==> #[trigger] split_dots(s)[i] == split_dots(
                s.take(j),
            )[i],
    decreases s.len() - j,
{
    if j == s.len() {
        assert(s.take(j) =~= s);
    } else {
        lemma_split_prefix(s, j + 1);
        assert(s.take(j + 1).drop_last() =~= s.take(j));
        lemma_split_len(s.take(j));
    }
}

/// A component as it is read: its length, whether it is all digits so far, and its value where that
/// is at most `u32::MAX`.
struct Component {
    empty: bool,
    digits: bool,
    value: u64,
}

impl Component {
    spec fn reads(self, t: Seq<char>) -> bool {
        &&& self.empty == (t.len() == 0)
        &&& self.digits == all_digits(t)
        &&& self.value <= 0x9_FFFF_FFFF + 10
        &&& self.digits ==> number_value(t) >= 0 && if number_value(t) <= u32::MAX {
            self.value == number_value(t)
        } else {
            self.value > u32::MAX
        }
    }

    fn new() -> (r: Component)
        ensures
            r.reads(Seq::empty()),
    {
        Component { empty: true, digits: true, value: 0 }
    }

    fn push(&mut self, c: char, t: Ghost<Seq<char>>)
        requires
            old(self).reads(t@),
        ensures
            final(self).reads(t@.push(c)),
    {
        let ghost next = t@.push(c);
        assert(next.drop_last() =~= t@);
        assert(next.last() == c);
        self.empty = false;
        if '0' <= c && c <= '9' {
            assert(all_digits(next) == all_digits(t@)) by {
                if all_digits(next) {
                    assert forall|i: int| 0 <= i < t@.len() implies '0' <= #[trigger] t@[i] <= '9' by {
                        assert(next[i] == t@[i]);
                    }
                }
            }
            if self.value <= u32::MAX as u64 {
                self.value = self.value * 10 + (c as u64 - 0x30);
            }
        } else {
            assert(!all_digits(next)) by {
                assert(next[next.len() - 1] == c);
            }
            self.digits = false;
        }
    }

    fn finish(&self, t: Ghost<Seq<char>>) -> (r: Result<u32, bool>)
        requires
            self.reads(t@),
        ensures
            match r {
                Ok(v) => component_fault(t@) is None && v == number_value(t@),
                Err(bad) => component_fault(t@) == Some(
                    if bad {
                        VersionFault::Bad
                    } else {
                        VersionFault::TooLarge
                    },
                ),
            },
    {
        if self.empty || !self.digits {
            Err(true)
        } else if self.value > u32::MAX as u64 {
            Err(false)
        } else {
            Ok(self.value as u32)
        }
    }
}

fn clamp_byte(v: u32) -> (r: u32)
    ensures
        r == byte_clamp(v as int),
{
    if v > 0xFF {
        0xFF
    } else {
        v
    }
}

fn refusal(s: &str, bad: bool) -> (e: VersionError)
    ensures
        e.text() == s@,
        e.fault() == if bad {
            VersionFault::Bad
        } else {
            VersionFault::TooLarge
        },
{
    if bad {
        VersionError::Bad(String::from_str(s))
    } else {
        VersionError::TooLarge(String::from_str(s))
    }
}

/// Packs `"a.b.c[.d]"` into 32 bits, each dotted part clamped to a byte:
/// `a<<24 | b<<16 | c<<8 | d`. Parts after the fourth are not looked at.
pub fn pack_version(s: &str) -> (r: Result<u32, VersionError>)
    ensures
        match r {
            Ok(v) => first_fault(split_dots(s@), 0) is None && v == packed_parts(split_dots(s@)),
            Err(e) => first_fault(split_dots(s@), 0) == Some(e.fault()) && e.text() == s@,
        },
{
    let len: usize = s.unicode_len();
    let mut parts: [u32; 4] = [0u32; 4];
    let mut n: usize = 0;
    let mut cur = Component::new();
    let mut j: usize = 0;
    let ghost mut open_part: Seq<char> = Seq::empty();
    assert(s@.take(0) =~= Seq::empty());
    while j < len && n < 4
        invariant
            j <= len == s@.len(),
            n <= 4,
            split_dots(s@.take(j as int)).len() == n + 1,
            open_part == split_dots(s@.take(j as int)).last(),
            cur.reads(open_part),
            forall|i: int|
                0 <= i < n ==> component_fault(#[trigger] split_dots(s@.take(j as int))[i]) is None
                    && parts@[i] == byte_clamp(number_value(split_dots(s@.take(j as int))[i])),
            forall|i: int| n <= i < 4 ==> parts@[i] == 0,
        decreases len - j,
    {
        let c: char = s.get_char(j);
        let ghost done = split_dots(s@.take(j as int));
        let ghost next = split_dots(s@.take(j + 1));
        proof {
            assert(s@.take(j + 1).drop_last() =~= s@.take(j as int));
            assert(s@.take(j + 1).last() == c);
        }
        if c == '.' {
            match cur.finish(Ghost(open_part)) {
                Ok(v) => {
                    parts[n] = clamp_byte(v);
                },
                Err(bad) => {
                    proof {
                        lemma_split_prefix(s@, j + 1);
                        let all = split_dots(s@);
                        assert forall|i: int| 0 <= i < n implies component_fault(#[trigger] all[i]) is None by {
                            assert(all[i] == next[i]);
                            assert(next[i] == done[i]);
                        }
                        assert(all[n as int] == next[n as int]);
                        assert(next[n as int] == done[n as int]);
                        lemma_first_fault(all, 0, n as int);
                    }
                    return Err(refusal(s, bad));
                },
            }
            proof {
                assert forall|i: int| 0 <= i < n + 1 implies component_fault(#[trigger] next[i]) is None
                    && parts@[i] == byte_clamp(number_value(next[i])) by {
                    assert(next[i] == done[i]);
                }
                open_part = Seq::empty();
            }
            cur = Component::new();
            n += 1;
        } else {
            cur.push(c, Ghost(open_part));
            proof {
                assert forall|i: int| 0 <= i < n implies component_fault(#[trigger] next[i]) is None
                    && parts@[i] == byte_clamp(number_value(next[i])) by {
                    assert(next[i] == done[i]);
                }
                open_part = open_part.push(c);
            }
        }
        j += 1;
    }
    let ghost all = split_dots(s@);
    let ghost done = split_dots(s@.take(j as int));
    proof {
        lemma_split_prefix(s@, j as int);
        assert forall|i: int| 0 <= i < n implies component_fault(#[trigger] all[i]) is None && parts@[i]
            == byte_clamp(number_value(all[i])) by {
            assert(all[i] == done[i]);
        }
        lemma_first_fault(all, 0, n as int);
        if j == len {
            assert(s@.take(j as int) =~= s@);
        }
    }
    if n < 4 {
        match cur.finish(Ghost(open_part)) {
            Ok(v) => {
                parts[n] = clamp_byte(v);
                proof {
                    lemma_first_fault(all, 0, n + 1);
                }
            },
            Err(bad) => {
                return Err(refusal(s, bad));
            },
        }
    }
    proof {
        assert forall|i: int| 0 <= i < 4 implies #[trigger] parts@[i] == component_byte(all, i) by {
            if i < n {
                assert(parts@[i] == byte_clamp(number_value(all[i])));
            }
        }
        assert(parts@[0] <= 0xFF && parts@[1] <= 0xFF && parts@[2] <= 0xFF && parts@[3] <= 0xFF);
        assert(parts@[0] == component_byte(all, 0));
        assert(parts@[1] == component_byte(all, 1));
        assert(parts@[2] == component_byte(all, 2));
        assert(parts@[3] == component_byte(all, 3));
    }
    Ok(parts[0] * 0x100_0000 + parts[1] * 0x1_0000 + parts[2] * 0x100 + parts[3])
}

/// The upper three bytes of a packed version, dotted.
pub open spec fn version_text(v: u32) -> Seq<char> {
    dec(v as int / 0x100_0000) + "."@ + dec(v as int / 0x1_0000 % 0x100) + "."@ + dec(
        v as int / 0x100 % 0x100,
    )
}

/// Renders the packed version as `"major.minor.patch"` (the prerelease byte is not shown).
pub fn version_str(v: u32) -> (s: String)
    ensures
        s@ == version_text(v),
{
    let mut s = String::new();
    push_dec(&mut s, (v / 0x100_0000) as u64);
    s.append(".");
    push_dec(&mut s, (v / 0x1_0000 % 0x100) as u64);
    s.append(".");
    push_dec(&mut s, (v / 0x100 % 0x100) as u64);
    s
}

proof fn lemma_dec(n: int)
    requires
        n >= 0,
    ensures
        is_number(dec(n)),
        number_value(dec(n)) == n,
    decreases n,
{
    let t = dec(n);
    if n < 10 {
        assert(t.last() == digit_char(n));
        assert(t.drop_last() =~= Seq::empty());
        assert(number_value(Seq::<char>::empty()) == 0);
    } else {
        lemma_dec(n / 10);
        assert(t.drop_last() =~= dec(n / 10));
        assert forall|i: int| 0 <= i < t.len() implies '0' <= #[trigger] t[i] <= '9' by {
            if i < dec(n / 10).len() {
                assert(t[i] == dec(n / 10)[i]);
            }
        }
    }
}

proof fn lemma_split_one(t: Seq<char>)
    requires
        all_digits(t),
    ensures
        split_dots(t) =~= seq![t],
    decreases t.len(),
{
    if t.len() > 0 {
        assert forall|i: int| 0 <= i < t.drop_last().len() implies '0' <= #[trigger] t.drop_last()[i]
            <= '9' by {
            assert(t[i] == t.drop_last()[i]);
        }
        lemma_split_one(t.drop_last());
        assert(t.last() != '.') by {
            assert(t[t.len() - 1] == t.last());
        }
        assert(t.drop_last().push(t.last()) =~= t);
    } else {
        assert(t =~= Seq::empty());
    }
}

proof fn lemma_split_more(a: Seq<char>, t: Seq<char>)
    requires
        all_digits(t),
    ensures
        split_dots(a + "."@ + t) =~= split_dots(a).push(t),
    decreases t.len(),
{
    reveal_strlit(".");
    let whole = a + "."@ + t;
    if t.len() == 0 {
        assert(whole.drop_last() =~= a);
        assert(whole.last() == '.');
        assert(t =~= Seq::empty());
    } else {
        let shorter = t.drop_last();
        assert forall|i: int| 0 <= i < shorter.len() implies '0' <= #[trigger] shorter[i] <= '9' by {
            assert(t[i] == shorter[i]);
        }
        lemma_split_more(a, shorter);
        assert(whole.drop_last() =~= a + "."@ + shorter);
        assert(whole.last() == t[t.len() - 1]);
        assert(shorter.push(t.last()) =~= t);
        assert(split_dots(a).push(shorter).drop_last() =~= split_dots(a));
    }
}

/// The text of a packed version packs back to it, but for the prerelease byte, which the text does
/// not show.
pub proof fn law_version_text_packs_back(v: u32)
    ensures
        first_fault(split_dots(version_text(v)), 0) is None,
        packed_parts(split_dots(version_text(v))) == v - v % 0x100,
{
    let a = dec(v as int / 0x100_0000);
    let b = dec(v as int / 0x1_0000 % 0x100);
    let c = dec(v as int / 0x100 % 0x100);
    lemma_dec(v as int / 0x100_0000);
    lemma_dec(v as int / 0x1_0000 % 0x100);
    lemma_dec(v as int / 0x100 % 0x100);
    lemma_split_one(a);
    lemma_split_more(a, b);
    lemma_split_more(a + "."@ + b, c);
    let parts = split_dots(version_text(v));
    assert(parts =~= seq![a, b, c]);
    lemma_first_fault(parts, 0, 3);
}

/// All four bytes of a packed version, dotted.
pub open spec fn full_version_text(v: u32) -> Seq<char> {
    version_text(v) + "."@ + dec(v as int % 0x100)
}

/// The four-part text of a packed version packs back to it.
pub proof fn law_full_version_packs_back(v: u32)
    ensures
        first_fault(split_dots(full_version_text(v)), 0) is None,
        packed_parts(split_dots(full_version_text(v))) == v,
{
    let a = dec(v as int / 0x100_0000);
    let b = dec(v as int / 0x1_0000 % 0x100);
    let c = dec(v as int / 0x100 % 0x100);
    let d = dec(v as int % 0x100);
    lemma_dec(v as int / 0x100_0000);
    lemma_dec(v as int / 0x1_0000 % 0x100);
    lemma_dec(v as int / 0x100 % 0x100);
    lemma_dec(v as int % 0x100);
    lemma_four_parts(a, b, c, d);
    let parts = split_dots(full_version_text(v));
    lemma_first_fault(parts, 0, 4);
}

proof fn lemma_four_parts(a: Seq<char>, b: Seq<char>, c: Seq<char>, d: Seq<char>)
    requires
        all_digits(a),
        all_digits(b),
        all_digits(c),
        all_digits(d),
    ensures
        split_dots(a + "."@ + b + "."@ + c + "."@ + d) == seq![a, b, c, d],
{
    lemma_split_one(a);
    lemma_split_more(a, b);
    lemma_split_more(a + "."@ + b, c);
    lemma_split_more(a + "."@ + b + "."@ + c, d);
    assert(seq![a].push(b).push(c).push(d) =~= seq![a, b, c, d]);
}

proof fn lemma_split_plain(t: Seq<char>)
    requires
        forall|i: int| 0 <= i < t.len() ==> t[i] != '.',
    ensures
        split_dots(t) == seq![t],
    decreases t.len(),
{
    if t.len() == 0 {
        assert(t =~= Seq::empty());
    } else {
        let shorter = t.drop_last();
        assert forall|i: int| 0 <= i < shorter.len() implies shorter[i] != '.' by {
            assert(t[i] == shorter[i]);
        }
        lemma_split_plain(shorter);
        assert(t[t.len() - 1] != '.');
        assert(shorter.push(t.last()) =~= t);
        assert(seq![shorter].drop_last() =~= Seq::empty());
        assert(Seq::<Seq<char>>::empty().push(t) =~= seq![t]);
    }
}

/// A text is split at its dots: one without a dot is its own only part, and a dot before a text
/// without one adds that text as a part.
pub proof fn law_split_at_dots(a: Seq<char>, t: Seq<char>)
    requires
        forall|i: int| 0 <= i < t.len() ==> t[i] != '.',
    ensures
        split_dots(t) == seq![t],
        split_dots(a.push('.') + t) == split_dots(a).push(t),
    decreases t.len(),
{
    lemma_split_plain(t);
    let whole = a.push('.') + t;
    if t.len() == 0 {
        assert(whole.drop_last() =~= a);
        assert(whole.last() == '.');
        assert(t =~= Seq::empty());
    } else {
        let shorter = t.drop_last();
        assert forall|i: int| 0 <= i < shorter.len() implies shorter[i] != '.' by {
            assert(t[i] == shorter[i]);
        }
        law_split_at_dots(a, shorter);
        assert(whole.drop_last() =~= a.push('.') + shorter);
        assert(whole.last() == t[t.len() - 1]);
        assert(shorter.push(t.last()) =~= t);
        assert(split_dots(a).push(shorter).drop_last() =~= split_dots(a));
    }
}

/// A version is accepted exactly where each of its first four parts is one or more decimal digits
/// that stand for at most 4294967295.
pub proof fn law_version_accepted(parts: Seq<Seq<char>>)
    ensures
        first_fault(parts, 0) is None <==> forall|i: int|
            0 <= i < 4 && i < parts.len() ==> (#[trigger] parts[i]).len() > 0 && (forall|j: int|
                0 <= j < parts[i].len() ==> '0' <= #[trigger] parts[i][j] <= '9')
                && number_value(parts[i]) <= 0xFFFF_FFFF,
{
    reveal_with_fuel(first_fault, 6);
    assert forall|i: int| 0 <= i < 4 && i < parts.len() implies (component_fault(
        #[trigger] parts[i],
    ) is None <==> parts[i].len() > 0 && (forall|j: int|
        0 <= j < parts[i].len() ==> '0' <= #[trigger] parts[i][j] <= '9') && number_value(parts[i])
        <= 0xFFFF_FFFF) by {}
    if first_fault(parts, 0) is None {
        assert forall|i: int| 0 <= i < 4 && i < parts.len() implies component_fault(
            #[trigger] parts[i],
        ) is None by {
            assert(i == 0 || i == 1 || i == 2 || i == 3);
        }
    } else {
        let n = parts.len();
        assert(n > 0 && component_fault(parts[0]) is Some || n > 1 && component_fault(parts[1]) is Some
            || n > 2 && component_fault(parts[2]) is Some || n > 3 && component_fault(
            parts[3],
        ) is Some);
    }
}

/// How numbers are packed: the first four, each held at 255, are the bytes from the highest to the
/// lowest, and those that are missing are zero.
pub proof fn law_version_packs_numbers(a: int, b: int, c: int, d: int)
    requires
        0 <= a <= 0xFFFF_FFFF,
        0 <= b <= 0xFFFF_FFFF,
        0 <= c <= 0xFFFF_FFFF,
        0 <= d <= 0xFFFF_FFFF,
    ensures
        ({
            let one = dec(a);
            let two = one.push('.') + dec(b);
            let three = two.push('.') + dec(c);
            let four = three.push('.') + dec(d);
            let held = |n: int|
                if n <= 255 {
                    n
                } else {
                    255
                };
            &&& first_fault(split_dots(one), 0) is None
            &&& first_fault(split_dots(two), 0) is None
            &&& first_fault(split_dots(three), 0) is None
            &&& first_fault(split_dots(four), 0) is None
            &&& packed_parts(split_dots(one)) == held(a) * 0x100_0000
            &&& packed_parts(split_dots(two)) == held(a) * 0x100_0000 + held(b) * 0x1_0000
            &&& packed_parts(split_dots(three)) == held(a) * 0x100_0000 + held(b) * 0x1_0000 + held(
                c,
            ) * 0x100
            &&& packed_parts(split_dots(four)) == held(a) * 0x100_0000 + held(b) * 0x1_0000 + held(
                c,
            ) * 0x100 + held(d)
        }),
{
    lemma_dec(a);
    lemma_dec(b);
    lemma_dec(c);
    lemma_dec(d);
    let one = dec(a);
    let two = one.push('.') + dec(b);
    let three = two.push('.') + dec(c);
    law_split_at_dots(one, one);
    law_split_at_dots(one, dec(b));
    law_split_at_dots(two, dec(c));
    law_split_at_dots(three, dec(d));
    reveal_with_fuel(first_fault, 6);
}

/// The parts behind the fourth are not looked at.
pub proof fn law_later_parts_are_ignored(parts: Seq<Seq<char>>, more: Seq<Seq<char>>)
    requires
        parts.len() == 4,
    ensures
        first_fault(parts + more, 0) == first_fault(parts, 0),
        packed_parts(parts + more) == packed_parts(parts),
{
    reveal_with_fuel(first_fault, 6);
    assert((parts + more)[0] == parts[0] && (parts + more)[1] == parts[1] && (parts + more)[2]
        == parts[2] && (parts + more)[3] == parts[3]);
}

proof fn lemma_version_bytes(a: u8, b: u8, c: u8, d: u8, v: int)
    requires
        v == a * 0x100_0000 + b * 0x1_0000 + c * 0x100 + d,
    ensures
        0 <= v <= 0xFFFF_FFFF,
        v / 0x100_0000 == a,
        v / 0x1_0000 % 0x100 == b,
        v / 0x100 % 0x100 == c,
{
    assert(v / 0x1_0000 == a * 0x100 + b);
    assert(v / 0x100 == a * 0x1_0000 + b * 0x100 + c);
}

proof fn lemma_dotted(x: Seq<char>, y: Seq<char>, z: Seq<char>)
    ensures
        x + "."@ + y + "."@ + z == x.push('.') + y.push('.') + z,
{
    reveal_strlit(".");
    assert(x + "."@ + y + "."@ + z =~= x.push('.') + y.push('.') + z);
}

/// The text of a packed version shows its three highest bytes in decimal, from the highest on.
pub proof fn law_version_text_shows_bytes(a: u8, b: u8, c: u8, d: u8)
    ensures
        version_text((a * 0x100_0000 + b * 0x1_0000 + c * 0x100 + d) as u32) == dec(a as int).push(
            '.',
        ) + dec(b as int).push('.') + dec(c as int),
{
    lemma_version_bytes(a, b, c, d, a * 0x100_0000 + b * 0x1_0000 + c * 0x100 + d);
    lemma_dotted(dec(a as int), dec(b as int), dec(c as int));
}

/// A number in decimal reads back, and its digits are all that it consists of.
pub proof fn law_decimal_reads_back(n: int)
    requires
        0 <= n,
    ensures
        dec(n).len() > 0,
        all_digits(dec(n)),
        number_value(dec(n)) == n,
        n > 0 ==> dec(n)[0] != '0',
    decreases n,
{
    lemma_dec(n);
    if n >= 10 {
        law_decimal_reads_back(n / 10);
        assert(dec(n)[0] == dec(n / 10)[0]);
    }
}

} // verus!
