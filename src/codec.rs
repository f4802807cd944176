//! Composite byte keys for edges: the big-endian source, the raw sort key, and
//! the big-endian destination, laid end to end.
use byteorder::{BigEndian, ByteOrder};
use vstd::arithmetic::div_mod::{lemma_fundamental_div_mod_converse, lemma_mod_breakdown};
use vstd::prelude::*;

use crate::Id;

verus! {

/// `256` raised to the power `n`.
pub open spec fn radix(n: nat) -> nat
    decreases n,
{
    if n == 0 {
        1
    } else {
        256 * radix((n - 1) as nat)
    }
}

/// The `n` low-order base-256 digits of `x`, most significant first.
pub open spec fn be_bytes(x: nat, n: nat) -> Seq<u8>
    decreases n,
{
    if n == 0 {
        Seq::empty()
    } else {
        be_bytes(x / 256, (n - 1) as nat).push((x % 256) as u8)
    }
}

/// The number whose big-endian digits are `s`.
pub open spec fn be_value(s: Seq<u8>) -> nat
    decreases s.len(),
{
    if s.len() == 0 {
        0
    } else {
        be_value(s.drop_last()) * 256 + s.last() as nat
    }
}

/// The eight bytes of a `u64`, most significant first.
pub open spec fn u64_be(x: u64) -> Seq<u8> {
    be_bytes(x as nat, 8)
}

/// The key under which the edge `(source, sort_key, dest)` is stored.
pub open spec fn edge_key(source: u64, sort_key: Seq<u8>, dest: u64) -> Seq<u8> {
    u64_be(source) + sort_key + u64_be(dest)
}

/// Strict lexicographic order on byte strings (a proper prefix comes first).
pub open spec fn lex_lt(a: Seq<u8>, b: Seq<u8>) -> bool
    decreases a.len(),
{
    if a.len() == 0 {
        b.len() > 0
    } else if b.len() == 0 {
        false
    } else if a[0] != b[0] {
        a[0] < b[0]
    } else {
        lex_lt(a.drop_first(), b.drop_first())
    }
}

/// `a` is a prefix of `b` and shorter than it.
pub open spec fn proper_prefix(a: Seq<u8>, b: Seq<u8>) -> bool {
    a.len() < b.len() && b.subrange(0, a.len() as int) == a
}

/// The order of edges: by source, then sort key, then destination.
pub open spec fn triple_lt(s1: u64, k1: Seq<u8>, d1: u64, s2: u64, k2: Seq<u8>, d2: u64) -> bool {
    s1 < s2 || (s1 == s2 && (lex_lt(k1, k2) || (k1 == k2 && d1 < d2)))
}

/// `a` and `b` agree before index `i` and `a` has the smaller byte at `i`.
pub open spec fn differ_first_at(a: Seq<u8>, b: Seq<u8>, i: int) -> bool {
    &&& 0 <= i < a.len()
    &&& i < b.len()
    &&& a.subrange(0, i) == b.subrange(0, i)
    &&& a[i] < b[i]
}

proof fn lemma_be_len(x: nat, n: nat)
    ensures
        be_bytes(x, n).len() == n,
    decreases n,
{
    if n > 0 {
        lemma_be_len(x / 256, (n - 1) as nat);
    }
}

proof fn lemma_radix_pos(n: nat)
    ensures
        radix(n) > 0,
    decreases n,
{
    if n > 0 {
        lemma_radix_pos((n - 1) as nat);
    }
}

proof fn lemma_radix_8()
    ensures
        radix(8) == 0x1_0000_0000_0000_0000nat,
{
    reveal_with_fuel(radix, 9);
}

/// Reading back the digits of `x` gives `x` modulo `256^n`.
proof fn lemma_be_value_of_bytes(x: nat, n: nat)
    ensures
        be_value(be_bytes(x, n)) == x % radix(n),
    decreases n,
{
    if n == 0 {
        assert(be_bytes(x, 0).len() == 0);
    } else {
        let m = (n - 1) as nat;
        lemma_be_value_of_bytes(x / 256, m);
        lemma_radix_pos(m);
        let s = be_bytes(x, n);
        assert(s.drop_last() == be_bytes(x / 256, m));
        lemma_mod_breakdown(x as int, 256, radix(m) as int);
        assert(be_value(s) == (x / 256) % radix(m) * 256 + x % 256);
        assert(x % radix(n) == 256 * ((x / 256) % radix(m)) + x % 256);
    }
}

/// Writing out the value of `s` in `s.len()` digits gives `s` back.
proof fn lemma_be_bytes_of_value(s: Seq<u8>)
    ensures
        be_bytes(be_value(s), s.len()) == s,
    decreases s.len(),
{
    if s.len() > 0 {
        let t = s.drop_last();
        lemma_be_bytes_of_value(t);
        let v = be_value(s);
        let b = s.last() as nat;
        lemma_fundamental_div_mod_converse(v as int, 256, be_value(t) as int, b as int);
        assert(v / 256 == be_value(t));
        assert(v % 256 == b);
        assert(be_bytes(v, s.len()) == t.push(s.last()));
        assert(t.push(s.last()) =~= s);
    }
}

/// Smaller numbers have digits that are smaller at their first difference.
proof fn lemma_be_lt(x: nat, y: nat, n: nat) -> (i: int)
    requires
        x < y < radix(n),
    ensures
        differ_first_at(be_bytes(x, n), be_bytes(y, n), i),
        i < n,
    decreases n,
{
    lemma_be_len(x, n);
    lemma_be_len(y, n);
    if n == 0 {
        assert(false);
        0
    } else {
        let m = (n - 1) as nat;
        lemma_radix_pos(m);
        let bx = be_bytes(x, n);
        let by = be_bytes(y, n);
        lemma_be_len(x / 256, m);
        lemma_be_len(y / 256, m);
        assert(x / 256 <= y / 256) by (nonlinear_arith)
            requires
                x < y,
        ;
        assert(y / 256 < radix(m)) by (nonlinear_arith)
            requires
                y < 256 * radix(m),
        ;
        if x / 256 < y / 256 {
            let j = lemma_be_lt(x / 256, y / 256, m);
            assert(bx.subrange(0, j) =~= be_bytes(x / 256, m).subrange(0, j));
            assert(by.subrange(0, j) =~= be_bytes(y / 256, m).subrange(0, j));
            j
        } else {
            assert(x % 256 < y % 256) by (nonlinear_arith)
                requires
                    x < y,
                    x / 256 == y / 256,
            ;
            assert(bx.subrange(0, m as int) =~= be_bytes(x / 256, m));
            assert(by.subrange(0, m as int) =~= be_bytes(y / 256, m));
            m as int
        }
    }
}

/// A first difference with the smaller byte on the left puts `a` before `b`.
pub proof fn lemma_differ_first_lex(a: Seq<u8>, b: Seq<u8>, i: int)
    requires
        differ_first_at(a, b, i),
    ensures
        lex_lt(a, b),
    decreases i,
{
    if i > 0 {
        assert(a[0] == a.subrange(0, i)[0]);
        assert(b[0] == b.subrange(0, i)[0]);
        assert(a.drop_first().subrange(0, i - 1) =~= a.subrange(0, i).drop_first());
        assert(b.drop_first().subrange(0, i - 1) =~= b.subrange(0, i).drop_first());
        lemma_differ_first_lex(a.drop_first(), b.drop_first(), i - 1);
    }
}

/// Where neither string is a prefix of the other, `lex_lt` is decided at a
/// first difference.
pub proof fn lemma_lex_differ_first(a: Seq<u8>, b: Seq<u8>) -> (i: int)
    requires
        lex_lt(a, b),
        !proper_prefix(a, b),
    ensures
        differ_first_at(a, b, i),
    decreases a.len(),
{
    if a.len() == 0 {
        assert(b.subrange(0, 0) =~= a);
        0
    } else if a[0] != b[0] {
        assert(a.subrange(0, 0) =~= b.subrange(0, 0));
        0
    } else {
        let (a1, b1) = (a.drop_first(), b.drop_first());
        if proper_prefix(a1, b1) {
            assert(b.subrange(0, a.len() as int) =~= seq![b[0]] + b1.subrange(0, a1.len() as int));
            assert(a =~= seq![a[0]] + a1);
        }
        let j = lemma_lex_differ_first(a1, b1);
        assert(a.subrange(0, j + 1) =~= seq![a[0]] + a1.subrange(0, j));
        assert(b.subrange(0, j + 1) =~= seq![b[0]] + b1.subrange(0, j));
        j + 1
    }
}

/// `lex_lt` is irreflexive.
pub proof fn lemma_lex_irreflexive(a: Seq<u8>)
    ensures
        !lex_lt(a, a),
    decreases a.len(),
{
    if a.len() > 0 {
        lemma_lex_irreflexive(a.drop_first());
    }
}

/// `lex_lt` is asymmetric.
pub proof fn lemma_lex_asymmetric(a: Seq<u8>, b: Seq<u8>)
    ensures
        !(lex_lt(a, b) && lex_lt(b, a)),
    decreases a.len(),
{
    if a.len() > 0 && b.len() > 0 && a[0] == b[0] {
        lemma_lex_asymmetric(a.drop_first(), b.drop_first());
    }
}

/// Two different byte strings are ordered one way or the other.
pub proof fn lemma_lex_total(a: Seq<u8>, b: Seq<u8>)
    requires
        a != b,
    ensures
        lex_lt(a, b) || lex_lt(b, a),
    decreases a.len(),
{
    if a.len() > 0 && b.len() > 0 && a[0] == b[0] {
        if a.drop_first() == b.drop_first() {
            assert(a =~= seq![a[0]] + a.drop_first());
            assert(b =~= seq![b[0]] + b.drop_first());
        }
        lemma_lex_total(a.drop_first(), b.drop_first());
    } else if a.len() == 0 && b.len() == 0 {
        assert(a =~= b);
    }
}

/// `lex_lt` is transitive.
pub proof fn lemma_lex_transitive(a: Seq<u8>, b: Seq<u8>, c: Seq<u8>)
    requires
        lex_lt(a, b),
        lex_lt(b, c),
    ensures
        lex_lt(a, c),
    decreases a.len(),
{
    if a.len() > 0 && b.len() > 0 && c.len() > 0 && a[0] == b[0] && b[0] == c[0] {
        lemma_lex_transitive(a.drop_first(), b.drop_first(), c.drop_first());
    }
}

/// Decoding an encoded edge key gives back the source, sort key and
/// destination that went in, whatever bytes the sort key holds.
pub proof fn lemma_edge_key_round_trip(source: u64, sort_key: Seq<u8>, dest: u64)
    ensures
        edge_key(source, sort_key, dest).len() == sort_key.len() + 16,
        decode_source(edge_key(source, sort_key, dest)) == source,
        decode_sort_key(edge_key(source, sort_key, dest)) == sort_key,
        decode_dest(edge_key(source, sort_key, dest)) == dest,
{
    let k = edge_key(source, sort_key, dest);
    let n = k.len() as int;
    lemma_be_len(source as nat, 8);
    lemma_be_len(dest as nat, 8);
    lemma_radix_8();
    lemma_be_value_of_bytes(source as nat, 8);
    lemma_be_value_of_bytes(dest as nat, 8);
    assert(k.subrange(0, 8) =~= u64_be(source));
    assert(k.subrange(n - 8, n) =~= u64_be(dest));
    assert(k.subrange(8, n - 8) =~= sort_key);
}

/// The source that an edge key starts with.
pub open spec fn decode_source(k: Seq<u8>) -> u64 {
    be_value(k.subrange(0, 8)) as u64
}

/// The sort key between the two eight-byte ends of an edge key.
pub open spec fn decode_sort_key(k: Seq<u8>) -> Seq<u8> {
    k.subrange(8, k.len() - 8)
}

/// The destination that an edge key ends with.
pub open spec fn decode_dest(k: Seq<u8>) -> u64 {
    be_value(k.subrange(k.len() - 8, k.len() as int)) as u64
}

/// Every key of sixteen bytes or more is the encoding of what it decodes to.
pub proof fn lemma_edge_key_decode_encode(k: Seq<u8>)
    requires
        k.len() >= 16,
    ensures
        edge_key(decode_source(k), decode_sort_key(k), decode_dest(k)) == k,
{
    let n = k.len() as int;
    let (a, b) = (k.subrange(0, 8), k.subrange(n - 8, n));
    lemma_be_bytes_of_value(a);
    lemma_be_bytes_of_value(b);
    lemma_be_value_of_bytes(be_value(a), 8);
    lemma_be_value_of_bytes(be_value(b), 8);
    lemma_radix_8();
    lemma_radix_pos(8);
    assert(be_value(a) < radix(8)) by {
        assert(be_value(a) % radix(8) < radix(8));
    }
    assert(be_value(b) < radix(8)) by {
        assert(be_value(b) % radix(8) < radix(8));
    }
    assert(u64_be(decode_source(k)) == a);
    assert(u64_be(decode_dest(k)) == b);
    assert(edge_key(decode_source(k), decode_sort_key(k), decode_dest(k)) =~= k);
}

/// Encoded keys compare byte by byte exactly as their edges compare by
/// `(source, sort_key, dest)`. Within one source this needs sort keys of
/// which neither is a proper prefix of the other: the destination's bytes
/// would otherwise be compared with the longer key's tail.
pub proof fn lemma_edge_key_order(s1: u64, k1: Seq<u8>, d1: u64, s2: u64, k2: Seq<u8>, d2: u64)
    requires
        s1 != s2 || k1 == k2 || (!proper_prefix(k1, k2) && !proper_prefix(k2, k1)),
    ensures
        lex_lt(edge_key(s1, k1, d1), edge_key(s2, k2, d2)) <==> triple_lt(
            s1,
            k1,
            d1,
            s2,
            k2,
            d2,
        ),
{
    let e1 = edge_key(s1, k1, d1);
    let e2 = edge_key(s2, k2, d2);
    if triple_lt(s1, k1, d1, s2, k2, d2) {
        lemma_edge_key_order_forward(s1, k1, d1, s2, k2, d2);
    } else if s1 == s2 && k1 == k2 && d1 == d2 {
        lemma_lex_irreflexive(e1);
    } else {
        if s1 == s2 && k1 != k2 {
            lemma_lex_total(k1, k2);
        }
        assert(triple_lt(s2, k2, d2, s1, k1, d1));
        lemma_edge_key_order_forward(s2, k2, d2, s1, k1, d1);
        lemma_lex_asymmetric(e1, e2);
    }
}

proof fn lemma_edge_key_order_forward(
    s1: u64,
    k1: Seq<u8>,
    d1: u64,
    s2: u64,
    k2: Seq<u8>,
    d2: u64,
)
    requires
        s1 != s2 || k1 == k2 || (!proper_prefix(k1, k2) && !proper_prefix(k2, k1)),
        triple_lt(s1, k1, d1, s2, k2, d2),
    ensures
        lex_lt(edge_key(s1, k1, d1), edge_key(s2, k2, d2)),
{
    let e1 = edge_key(s1, k1, d1);
    let e2 = edge_key(s2, k2, d2);
    lemma_be_len(s1 as nat, 8);
    lemma_be_len(s2 as nat, 8);
    lemma_be_len(d1 as nat, 8);
    lemma_be_len(d2 as nat, 8);
    lemma_radix_8();
    if s1 < s2 {
        let i = lemma_be_lt(s1 as nat, s2 as nat, 8);
        assert(e1.subrange(0, i) =~= u64_be(s1).subrange(0, i));
        assert(e2.subrange(0, i) =~= u64_be(s2).subrange(0, i));
        assert(differ_first_at(e1, e2, i));
        lemma_differ_first_lex(e1, e2, i);
    } else if lex_lt(k1, k2) {
        let j = lemma_lex_differ_first(k1, k2);
        assert(e1.subrange(0, 8 + j) =~= u64_be(s1) + k1.subrange(0, j));
        assert(e2.subrange(0, 8 + j) =~= u64_be(s2) + k2.subrange(0, j));
        assert(differ_first_at(e1, e2, 8 + j));
        lemma_differ_first_lex(e1, e2, 8 + j);
    } else {
        let i = lemma_be_lt(d1 as nat, d2 as nat, 8);
        let p = 8 + k1.len();
        assert(e1.subrange(0, p + i) =~= u64_be(s1) + k1 + u64_be(d1).subrange(0, i));
        assert(e2.subrange(0, p + i) =~= u64_be(s2) + k2 + u64_be(d2).subrange(0, i));
        assert(differ_first_at(e1, e2, p + i));
        lemma_differ_first_lex(e1, e2, p + i);
    }
}

/// Relies on byteorder's `BigEndian::write_u64`: the eight bytes of `n`,
/// most significant first.
#[verifier::external_body]
fn u64_to_be(n: u64) -> (r: Vec<u8>)
    ensures
        r@ == u64_be(n),
{
    let mut buf = [0u8; 8];
    BigEndian::write_u64(&mut buf, n);
    buf.to_vec()
}

/// Relies on byteorder's `BigEndian::read_u64`: the number whose big-endian
/// form is the first eight bytes of `buf` (it panics on fewer).
#[verifier::external_body]
fn u64_from_be(buf: &[u8]) -> (r: u64)
    requires
        buf@.len() >= 8,
    ensures
        r as nat == be_value(buf@.subrange(0, 8)),
{
    BigEndian::read_u64(buf)
}

/// Appends the bytes of `src` to `dst` in order.
fn append_bytes(dst: &mut Vec<u8>, src: &[u8], from: usize, to: usize)
    requires
        from <= to <= src@.len(),
    ensures
        final(dst)@ == old(dst)@ + src@.subrange(from as int, to as int),
{
    let mut i = from;
    while i < to
        invariant
            from <= i <= to <= src@.len(),
            dst@ == old(dst)@ + src@.subrange(from as int, i as int),
        decreases to - i,
    {
        dst.push(src[i]);
        i += 1;
        assert(dst@ =~= old(dst)@ + src@.subrange(from as int, i as int));
    }
}

/// Builds the stored key of the edge `(source, sort_key, dest)`.
pub fn make_edge_key(source: Id, sort_key: &[u8], dest: Id) -> (key: Vec<u8>)
    ensures
        key@ == edge_key(source, sort_key@, dest),
{
    let mut key = u64_to_be(source);
    append_bytes(&mut key, sort_key, 0, sort_key.len());
    let tail = u64_to_be(dest);
    proof {
        lemma_be_len(dest as nat, 8);
    }
    append_bytes(&mut key, tail.as_slice(), 0, 8);
    assert(sort_key@.subrange(0, sort_key@.len() as int) =~= sort_key@);
    assert(tail@.subrange(0, 8) =~= tail@);
    key
}

/// Splits a stored edge key into its source, sort key and destination.
pub fn parse_edge_key(key: &[u8]) -> (r: (Id, Vec<u8>, Id))
    requires
        key@.len() >= 16,
    ensures
        key@ == edge_key(r.0, r.1@, r.2),
        r.0 == decode_source(key@),
        r.1@ == decode_sort_key(key@),
        r.2 == decode_dest(key@),
{
    let n = key.len();
    let source = u64_from_be(key);
    let mut tail: Vec<u8> = Vec::new();
    append_bytes(&mut tail, key, n - 8, n);
    let dest = u64_from_be(tail.as_slice());
    let mut sort_key: Vec<u8> = Vec::new();
    append_bytes(&mut sort_key, key, 8, n - 8);
    assert(tail@ =~= key@.subrange(n - 8, n as int));
    assert(tail@.subrange(0, 8) =~= tail@);
    assert(sort_key@ =~= decode_sort_key(key@));
    proof {
        lemma_edge_key_decode_encode(key@);
    }
    (source, sort_key, dest)
}

/// The edges that a list of stored keys encode, in order.
pub fn edges_of_keys(keys: &Vec<Vec<u8>>) -> (r: Vec<crate::query_edge::Edge>)
    requires
        forall|i: int| 0 <= i < keys@.len() ==> (#[trigger] keys@[i])@.len() >= 16,
    ensures
        r@.len() == keys@.len(),
        forall|i: int|
            0 <= i < keys@.len() ==> (#[trigger] r@[i])@ == (
                decode_source(keys@[i]@),
                decode_sort_key(keys@[i]@),
                decode_dest(keys@[i]@),
            ),
{
    let mut r: Vec<crate::query_edge::Edge> = Vec::new();
    let mut i: usize = 0;
    while i < keys.len()
        invariant
            i <= keys@.len(),
            r@.len() == i,
            forall|k: int| 0 <= k < keys@.len() ==> (#[trigger] keys@[k])@.len() >= 16,
            forall|k: int|
                0 <= k < i ==> (#[trigger] r@[k])@ == (
                    decode_source(keys@[k]@),
                    decode_sort_key(keys@[k]@),
                    decode_dest(keys@[k]@),
                ),
        decreases keys@.len() - i,
    {
        let (source, sort_key, dest) = parse_edge_key(keys[i].as_slice());
        r.push(crate::query_edge::Edge::new(source, sort_key, dest));
        i += 1;
    }
    r
}

/// The stored keys that encode an edge into `dest`: each such key, and no
/// other.
pub fn keys_into(keys: &Vec<Vec<u8>>, dest: Id) -> (r: Vec<Vec<u8>>)
    requires
        forall|i: int| 0 <= i < keys@.len() ==> (#[trigger] keys@[i])@.len() >= 16,
    ensures
        forall|i: int| 0 <= i < r@.len() ==> decode_dest((#[trigger] r@[i])@) == dest && exists|j: int|
            0 <= j < keys@.len() && keys@[j]@ == r@[i]@,
        forall|j: int|
            0 <= j < keys@.len() && decode_dest((#[trigger] keys@[j])@) == dest ==> exists|i: int|
                0 <= i < r@.len() && r@[i]@ == keys@[j]@,
{
    let mut r: Vec<Vec<u8>> = Vec::new();
    let mut i: usize = 0;
    while i < keys.len()
        invariant
            i <= keys@.len(),
            forall|k: int| 0 <= k < keys@.len() ==> (#[trigger] keys@[k])@.len() >= 16,
            forall|k: int| 0 <= k < r@.len() ==> decode_dest((#[trigger] r@[k])@) == dest && exists|j: int|
                0 <= j < i && keys@[j]@ == r@[k]@,
            forall|j: int|
                0 <= j < i && decode_dest((#[trigger] keys@[j])@) == dest ==> exists|k: int|
                    0 <= k < r@.len() && r@[k]@ == keys@[j]@,
        decreases keys@.len() - i,
    {
        let (_, _, d) = parse_edge_key(keys[i].as_slice());
        if d == dest {
            let ghost before = r@;
            r.push(crate::query_edge::copy_bytes(keys[i].as_slice()));
            assert forall|k: int| 0 <= k < r@.len() implies decode_dest((#[trigger] r@[k])@) == dest && exists|j: int|
                0 <= j < i + 1 && keys@[j]@ == r@[k]@ by {
                if k < before.len() {
                    assert(r@[k] == before[k]);
                } else {
                    assert(keys@[i as int]@ == r@[k]@);
                }
            }
            assert forall|j: int|
                0 <= j < i + 1 && decode_dest((#[trigger] keys@[j])@) == dest implies exists|k: int|
                    0 <= k < r@.len() && r@[k]@ == keys@[j]@ by {
                if j < i {
                    let k = choose|k: int| 0 <= k < before.len() && before[k]@ == keys@[j]@;
                    assert(r@[k] == before[k]);
                } else {
                    assert(r@[before.len() as int]@ == keys@[j]@);
                }
            }
        }
        i += 1;
    }
    assert forall|k: int| 0 <= k < r@.len() implies decode_dest((#[trigger] r@[k])@) == dest && exists|j: int|
        0 <= j < keys@.len() && keys@[j]@ == r@[k]@ by {
        let j = choose|j: int| 0 <= j < i && keys@[j]@ == r@[k]@;
    }
    r
}

} // verus!
