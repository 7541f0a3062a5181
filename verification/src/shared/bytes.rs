//! Big-endian integer encodings, lexicographic order on byte strings, and
//! byte-string prefixes. The ordered stores and the chunk-key layout are
//! specified in these terms.

use vstd::prelude::*;

verus! {

/// The 8-byte big-endian encoding of a 64-bit integer.
pub open spec fn u64_be_bytes(x: u64) -> Seq<u8> {
    seq![
        (x >> 56) as u8,
        (x >> 48) as u8,
        (x >> 40) as u8,
        (x >> 32) as u8,
        (x >> 24) as u8,
        (x >> 16) as u8,
        (x >> 8) as u8,
        x as u8,
    ]
}

/// The 4-byte big-endian encoding of a 32-bit integer.
pub open spec fn u32_be_bytes(x: u32) -> Seq<u8> {
    seq![(x >> 24) as u8, (x >> 16) as u8, (x >> 8) as u8, x as u8]
}

/// The 32-bit integer read back from its 4 big-endian bytes.
pub open spec fn u32_from_be_bytes(b: Seq<u8>) -> u32
    recommends
        b.len() == 4,
{
    (((b[0] as u32) << 24) | ((b[1] as u32) << 16) | ((b[2] as u32) << 8) | (b[3] as u32)) as u32
}

pub fn u64_to_be(x: u64) -> (r: Vec<u8>)
    ensures
        r@ == u64_be_bytes(x),
{
    let mut r: Vec<u8> = Vec::new();
    r.push((x >> 56) as u8);
    r.push((x >> 48) as u8);
    r.push((x >> 40) as u8);
    r.push((x >> 32) as u8);
    r.push((x >> 24) as u8);
    r.push((x >> 16) as u8);
    r.push((x >> 8) as u8);
    r.push(x as u8);
    proof {
        assert(r@ =~= u64_be_bytes(x));
    }
    r
}

pub fn u32_to_be(x: u32) -> (r: Vec<u8>)
    ensures
        r@ == u32_be_bytes(x),
{
    let mut r: Vec<u8> = Vec::new();
    r.push((x >> 24) as u8);
    r.push((x >> 16) as u8);
    r.push((x >> 8) as u8);
    r.push(x as u8);
    proof {
        assert(r@ =~= u32_be_bytes(x));
    }
    r
}

pub fn u32_from_be(b0: u8, b1: u8, b2: u8, b3: u8) -> (r: u32)
    ensures
        r == u32_from_be_bytes(seq![b0, b1, b2, b3]),
{
    ((b0 as u32) << 24) | ((b1 as u32) << 16) | ((b2 as u32) << 8) | (b3 as u32)
}

/// Reading the big-endian bytes of a 32-bit integer gives the integer back.
pub proof fn lemma_u32_be_roundtrip(x: u32)
    ensures
        u32_from_be_bytes(u32_be_bytes(x)) == x,
{
    assert((((((x >> 24) as u8) as u32) << 24) | ((((x >> 16) as u8) as u32) << 16) | ((((x
        >> 8) as u8) as u32) << 8) | ((x as u8) as u32)) == x) by (bit_vector);
}

/// Big-endian encoding orders 32-bit integers the way the integers order:
/// a smaller index encodes to a lexicographically smaller key.
pub proof fn lemma_u32_be_order(x: u32, y: u32)
    requires
        x < y,
    ensures
        lex_lt(u32_be_bytes(x), u32_be_bytes(y)),
{
    let a = u32_be_bytes(x);
    let b = u32_be_bytes(y);
    assert(x < y ==> (x >> 24) as u8 <= (y >> 24) as u8) by (bit_vector);
    if a[0] == b[0] {
        assert(x < y && (x >> 24) as u8 == (y >> 24) as u8 ==> (x >> 16) as u8 <= (y
            >> 16) as u8) by (bit_vector);
        assert(x < y && (x >> 24) as u8 == (y >> 24) as u8 && (x >> 16) as u8 == (y >> 16) as u8
            ==> (x >> 8) as u8 <= (y >> 8) as u8) by (bit_vector);
        assert(x < y && (x >> 24) as u8 == (y >> 24) as u8 && (x >> 16) as u8 == (y >> 16) as u8
            && (x >> 8) as u8 == (y >> 8) as u8 ==> (x as u8) < (y as u8)) by (bit_vector);
        reveal_with_fuel(lex_lt, 5);
        assert(lex_lt(a, b));
    } else {
        assert(lex_lt(a, b));
    }
}

/// Writing the 4 big-endian bytes of the integer they encode gives the bytes
/// back.
pub proof fn lemma_u32_be_inverse(b0: u8, b1: u8, b2: u8, b3: u8)
    ensures
        u32_be_bytes(u32_from_be_bytes(seq![b0, b1, b2, b3])) == seq![b0, b1, b2, b3],
{
    let x = u32_from_be_bytes(seq![b0, b1, b2, b3]);
    let y = (((b0 as u32) << 24) | ((b1 as u32) << 16) | ((b2 as u32) << 8) | (b3 as u32)) as u32;
    assert((y >> 24) as u8 == b0 && (y >> 16) as u8 == b1 && (y >> 8) as u8 == b2 && y as u8
        == b3) by (bit_vector)
        requires
            y == (((b0 as u32) << 24) | ((b1 as u32) << 16) | ((b2 as u32) << 8) | (b3 as u32)) as u32,
    ;
    assert(u32_be_bytes(x) =~= seq![b0, b1, b2, b3]);
}

/// Prepending the same bytes to two strings keeps their order.
pub proof fn lemma_lex_concat_same_prefix(p: Seq<u8>, s: Seq<u8>, t: Seq<u8>)
    ensures
        lex_lt(p + s, p + t) == lex_lt(s, t),
    decreases p.len(),
{
    if p.len() == 0 {
        assert(p + s =~= s);
        assert(p + t =~= t);
    } else {
        assert((p + s)[0] == p[0]);
        assert((p + t)[0] == p[0]);
        assert((p + s).skip(1) =~= p.skip(1) + s);
        assert((p + t).skip(1) =~= p.skip(1) + t);
        lemma_lex_concat_same_prefix(p.skip(1), s, t);
        assert((p + s).len() > 0 && (p + t).len() > 0);
    }
}

/// Strict lexicographic order on byte strings: a proper prefix comes first,
/// otherwise the first differing byte decides.
pub open spec fn lex_lt(a: Seq<u8>, b: Seq<u8>) -> bool
    decreases a.len(),
{
    if b.len() == 0 {
        false
    } else if a.len() == 0 {
        true
    } else if a[0] < b[0] {
        true
    } else if a[0] > b[0] {
        false
    } else {
        lex_lt(a.skip(1), b.skip(1))
    }
}

/// Non-strict lexicographic order.
pub open spec fn lex_le(a: Seq<u8>, b: Seq<u8>) -> bool {
    lex_lt(a, b) || a == b
}

pub proof fn lemma_lex_irrefl(a: Seq<u8>)
    ensures
        !lex_lt(a, a),
    decreases a.len(),
{
    if a.len() > 0 {
        lemma_lex_irrefl(a.skip(1));
    }
}

/// Exactly one of `a < b`, `a == b`, `b < a` holds.
pub proof fn lemma_lex_total(a: Seq<u8>, b: Seq<u8>)
    ensures
        lex_lt(a, b) || lex_lt(b, a) || a == b,
    decreases a.len(),
{
    if a.len() == 0 {
        if b.len() == 0 {
            assert(a =~= b);
        }
    } else if b.len() > 0 && a[0] == b[0] {
        lemma_lex_total(a.skip(1), b.skip(1));
        if a.skip(1) == b.skip(1) {
            assert(a.skip(1).len() == b.skip(1).len());
            assert(a.len() == b.len());
            assert(forall|i: int| 1 <= i < a.len() ==> #[trigger] a[i] == a.skip(1)[i - 1]);
            assert(forall|i: int| 1 <= i < b.len() ==> #[trigger] b[i] == b.skip(1)[i - 1]);
            assert(a =~= b);
        }
    }
}

pub proof fn lemma_lex_trans(a: Seq<u8>, b: Seq<u8>, c: Seq<u8>)
    requires
        lex_lt(a, b),
        lex_lt(b, c),
    ensures
        lex_lt(a, c),
    decreases a.len(),
{
    if a.len() > 0 && b.len() > 0 && c.len() > 0 && a[0] == b[0] && b[0] == c[0] {
        lemma_lex_trans(a.skip(1), b.skip(1), c.skip(1));
    }
}

/// `p` is a prefix of `k`.
pub open spec fn has_prefix(k: Seq<u8>, p: Seq<u8>) -> bool {
    k.len() >= p.len() && k.take(p.len() as int) == p
}

/// Keys that share a prefix form a contiguous block in lexicographic order:
/// anything between two keys with the prefix carries the prefix too.
pub proof fn lemma_prefix_between(a: Seq<u8>, b: Seq<u8>, c: Seq<u8>, p: Seq<u8>)
    requires
        has_prefix(a, p),
        has_prefix(c, p),
        lex_le(a, b),
        lex_le(b, c),
    ensures
        has_prefix(b, p),
    decreases p.len(),
{
    if p.len() == 0 {
        assert(b.take(0) =~= p);
    } else {
        assert(a.len() > 0 && c.len() > 0);
        assert(a[0] == p[0] && c[0] == p[0]) by {
            assert(a.take(p.len() as int)[0] == a[0]);
            assert(c.take(p.len() as int)[0] == c[0]);
        }
        if b == a || b == c {
            assert(has_prefix(b, p));
        } else {
            assert(lex_lt(a, b) && lex_lt(b, c));
            assert(b.len() > 0);
            assert(a[0] <= b[0] && b[0] <= c[0]);
            assert(b[0] == p[0]);
            assert(lex_lt(a.skip(1), b.skip(1)) && lex_lt(b.skip(1), c.skip(1)));
            assert(has_prefix(a.skip(1), p.skip(1))) by {
                assert(a.skip(1).take(p.len() - 1) =~= a.take(p.len() as int).skip(1));
                assert(p.skip(1) =~= a.take(p.len() as int).skip(1));
            }
            assert(has_prefix(c.skip(1), p.skip(1))) by {
                assert(c.skip(1).take(p.len() - 1) =~= c.take(p.len() as int).skip(1));
                assert(p.skip(1) =~= c.take(p.len() as int).skip(1));
            }
            lemma_prefix_between(a.skip(1), b.skip(1), c.skip(1), p.skip(1));
            assert(b.take(p.len() as int) =~= p) by {
                assert(b.skip(1).take(p.len() - 1) =~= b.take(p.len() as int).skip(1));
                assert(forall|i: int|
                    0 <= i < p.len() ==> b.take(p.len() as int)[i] == #[trigger] p[i]) by {
                    assert(forall|i: int|
                        0 < i < p.len() ==> b.take(p.len() as int)[i] == b.skip(1).take(
                            p.len() - 1,
                        )[i - 1] && #[trigger] p[i] == p.skip(1)[i - 1]);
                }
            }
        }
    }
}

/// Compares two byte strings in lexicographic order.
pub fn lex_lt_bytes(a: &[u8], b: &[u8]) -> (r: bool)
    ensures
        r == lex_lt(a@, b@),
{
    let n = if a.len() < b.len() {
        a.len()
    } else {
        b.len()
    };
    let mut i: usize = 0;
    proof {
        assert(a@.take(0) =~= b@.take(0));
        assert(a@.skip(0) =~= a@);
        assert(b@.skip(0) =~= b@);
    }
    while i < n
        invariant
            0 <= i <= n,
            n == if a@.len() < b@.len() {
                a@.len()
            } else {
                b@.len()
            },
            a@.take(i as int) == b@.take(i as int),
            lex_lt(a@, b@) == lex_lt(a@.skip(i as int), b@.skip(i as int)),
        decreases n - i,
    {
        if a[i] < b[i] {
            return true;
        }
        if a[i] > b[i] {
            return false;
        }
        proof {
            assert(a@.skip(i as int)[0] == b@.skip(i as int)[0]);
            assert(a@.skip(i as int).skip(1) =~= a@.skip(i + 1));
            assert(b@.skip(i as int).skip(1) =~= b@.skip(i + 1));
            assert(a@.take(i + 1) =~= b@.take(i + 1));
        }
        i = i + 1;
    }
    proof {
        if a@.len() < b@.len() {
            assert(a@.skip(i as int).len() == 0 && b@.skip(i as int).len() > 0);
        } else {
            assert(b@.skip(i as int).len() == 0);
        }
    }
    a.len() < b.len()
}

/// Tests two byte strings for equality.
pub fn bytes_eq(a: &[u8], b: &[u8]) -> (r: bool)
    ensures
        r == (a@ == b@),
{
    if a.len() != b.len() {
        return false;
    }
    let mut i: usize = 0;
    while i < a.len()
        invariant
            0 <= i <= a@.len(),
            a@.len() == b@.len(),
            forall|j: int| 0 <= j < i ==> a@[j] == b@[j],
        decreases a@.len() - i,
    {
        if a[i] != b[i] {
            return false;
        }
        i = i + 1;
    }
    proof {
        assert(a@ =~= b@);
    }
    true
}

/// Tests whether `p` is a prefix of `k`.
pub fn is_prefix_of(k: &[u8], p: &[u8]) -> (r: bool)
    ensures
        r == has_prefix(k@, p@),
{
    if k.len() < p.len() {
        return false;
    }
    let mut i: usize = 0;
    while i < p.len()
        invariant
            0 <= i <= p@.len(),
            k@.len() >= p@.len(),
            forall|j: int| 0 <= j < i ==> k@[j] == p@[j],
        decreases p@.len() - i,
    {
        if k[i] != p[i] {
            proof {
                assert(k@.take(p@.len() as int)[i as int] == k@[i as int]);
            }
            return false;
        }
        i = i + 1;
    }
    proof {
        assert(k@.take(p@.len() as int) =~= p@);
    }
    true
}

} // verus!
