//! The order of paths: component by component, each component byte by byte.
use vstd::prelude::*;

use crate::bytes::bytes_eq;

verus! {

/// Whether one name stands before another: at the first byte in which they differ it has the lower
/// one, or it is a proper prefix.
pub open spec fn name_before(a: Seq<u8>, b: Seq<u8>) -> bool
    decreases b.len(),
{
    if b.len() == 0 {
        false
    } else if a.len() == 0 {
        true
    } else if a[0] != b[0] {
        a[0] < b[0]
    } else {
        name_before(a.drop_first(), b.drop_first())
    }
}

/// Whether one path stands before another: at the first component in which they differ it has the
/// one that stands before, or it is a proper prefix.
pub open spec fn path_before(a: Seq<Seq<u8>>, b: Seq<Seq<u8>>) -> bool
    decreases b.len(),
{
    if b.len() == 0 {
        false
    } else if a.len() == 0 {
        true
    } else if a[0] != b[0] {
        name_before(a[0], b[0])
    } else {
        path_before(a.drop_first(), b.drop_first())
    }
}

/// The components of a path.
pub open spec fn components(path: Seq<Vec<u8>>) -> Seq<Seq<u8>> {
    Seq::new(path.len(), |i: int| path[i]@)
}

proof fn lemma_name_irreflexive(a: Seq<u8>)
    ensures
        !name_before(a, a),
    decreases a.len(),
{
    if a.len() > 0 {
        lemma_name_irreflexive(a.drop_first());
    }
}

proof fn lemma_name_transitive(a: Seq<u8>, b: Seq<u8>, c: Seq<u8>)
    requires
        name_before(a, b),
        name_before(b, c),
    ensures
        name_before(a, c),
    decreases c.len(),
{
    if a.len() > 0 && a[0] == b[0] && b[0] == c[0] {
        lemma_name_transitive(a.drop_first(), b.drop_first(), c.drop_first());
    }
}

proof fn lemma_name_total(a: Seq<u8>, b: Seq<u8>)
    ensures
        a == b || name_before(a, b) || name_before(b, a),
    decreases a.len(),
{
    if a.len() == 0 && b.len() == 0 {
        assert(a =~= b);
    } else if a.len() > 0 && b.len() > 0 && a[0] == b[0] {
        lemma_name_total(a.drop_first(), b.drop_first());
        assert(a =~= seq![a[0]] + a.drop_first());
        assert(b =~= seq![b[0]] + b.drop_first());
    }
}

/// No path stands before itself.
pub proof fn lemma_path_irreflexive(a: Seq<Seq<u8>>)
    ensures
        !path_before(a, a),
    decreases a.len(),
{
    if a.len() > 0 {
        lemma_path_irreflexive(a.drop_first());
    }
}

/// A path that stands before one that stands before a third stands before the third.
pub proof fn lemma_path_transitive(a: Seq<Seq<u8>>, b: Seq<Seq<u8>>, c: Seq<Seq<u8>>)
    requires
        path_before(a, b),
        path_before(b, c),
    ensures
        path_before(a, c),
    decreases c.len(),
{
    if a.len() > 0 {
        if a[0] == b[0] && b[0] == c[0] {
            lemma_path_transitive(a.drop_first(), b.drop_first(), c.drop_first());
        } else if a[0] != b[0] && b[0] != c[0] {
            lemma_name_transitive(a[0], b[0], c[0]);
            lemma_name_irreflexive(a[0]);
        }
    }
}

/// Of two different paths one stands before the other.
pub proof fn lemma_path_total(a: Seq<Seq<u8>>, b: Seq<Seq<u8>>)
    ensures
        a == b || path_before(a, b) || path_before(b, a),
    decreases a.len(),
{
    if a.len() == 0 && b.len() == 0 {
        assert(a =~= b);
    } else if a.len() > 0 && b.len() > 0 {
        if a[0] == b[0] {
            lemma_path_total(a.drop_first(), b.drop_first());
            assert(a =~= seq![a[0]] + a.drop_first());
            assert(b =~= seq![b[0]] + b.drop_first());
        } else {
            lemma_name_total(a[0], b[0]);
        }
    }
}

fn name_is_before(a: &[u8], b: &[u8]) -> (r: bool)
    ensures
        r == name_before(a@, b@),
{
    let mut i: usize = 0;
    assert(a@.skip(0) =~= a@);
    assert(b@.skip(0) =~= b@);
    while i < a.len() && i < b.len()
        invariant
            i <= a@.len(),
            i <= b@.len(),
            name_before(a@, b@) == name_before(a@.skip(i as int), b@.skip(i as int)),
        decreases a@.len() - i,
    {
        if a[i] != b[i] {
            return a[i] < b[i];
        }
        assert(a@.skip(i as int).drop_first() =~= a@.skip(i + 1));
        assert(b@.skip(i as int).drop_first() =~= b@.skip(i + 1));
        i += 1;
    }
    i < b.len()
}

/// Whether one path stands before another, by their components.
pub fn path_is_before(a: &[Vec<u8>], b: &[Vec<u8>]) -> (r: bool)
    ensures
        r == path_before(components(a@), components(b@)),
{
    let ghost left = components(a@);
    let ghost right = components(b@);
    let mut i: usize = 0;
    assert(left.skip(0) =~= left);
    assert(right.skip(0) =~= right);
    while i < a.len() && i < b.len()
        invariant
            left == components(a@),
            right == components(b@),
            i <= a@.len(),
            i <= b@.len(),
            path_before(left, right) == path_before(left.skip(i as int), right.skip(i as int)),
        decreases a@.len() - i,
    {
        if !bytes_eq(a[i].as_slice(), b[i].as_slice()) {
            return name_is_before(a[i].as_slice(), b[i].as_slice());
        }
        assert(left.skip(i as int).drop_first() =~= left.skip(i + 1));
        assert(right.skip(i as int).drop_first() =~= right.skip(i + 1));
        i += 1;
    }
    i < b.len()
}

/// The order of names: behind a common start the lower byte decides, and where one ends there it
/// stands first.
pub proof fn law_name_order(p: Seq<u8>, x: u8, a: Seq<u8>, y: u8, b: Seq<u8>)
    ensures
        x != y ==> name_before(p.push(x) + a, p.push(y) + b) == (x < y),
        name_before(p, p.push(x) + a),
        !name_before(p.push(x) + a, p),
    decreases p.len(),
{
    let left = p.push(x) + a;
    let right = p.push(y) + b;
    if p.len() > 0 {
        law_name_order(p.drop_first(), x, a, y, b);
        assert(left.drop_first() =~= p.drop_first().push(x) + a);
        assert(right.drop_first() =~= p.drop_first().push(y) + b);
        assert(left[0] == p[0] && right[0] == p[0]);
    } else {
        assert(left[0] == x && right[0] == y);
    }
}

/// The order of paths: behind common components the first that differs decides, and where one ends
/// there it stands first. No path stands before itself.
pub proof fn law_path_order(
    p: Seq<Seq<u8>>,
    x: Seq<u8>,
    a: Seq<Seq<u8>>,
    y: Seq<u8>,
    b: Seq<Seq<u8>>,
)
    ensures
        x != y ==> path_before(p.push(x) + a, p.push(y) + b) == name_before(x, y),
        path_before(p, p.push(x) + a),
        !path_before(p.push(x) + a, p),
        !path_before(p, p),
    decreases p.len(),
{
    lemma_path_irreflexive(p);
    let left = p.push(x) + a;
    let right = p.push(y) + b;
    if p.len() > 0 {
        law_path_order(p.drop_first(), x, a, y, b);
        assert(left.drop_first() =~= p.drop_first().push(x) + a);
        assert(right.drop_first() =~= p.drop_first().push(y) + b);
        assert(left[0] == p[0] && right[0] == p[0]);
    } else {
        assert(left[0] == x && right[0] == y);
    }
}

} // verus!
