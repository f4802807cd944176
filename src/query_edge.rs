//! Edges as query results, and the query engine: name filter, order, cursor
//! and page size over a set of stored edges.
use vstd::prelude::*;

use crate::codec::{lemma_lex_asymmetric, lemma_lex_irreflexive, lemma_lex_total, lemma_lex_transitive, lex_lt};
use crate::{DatabaseError, Id};

verus! {

/// Most edges that one query returns.
pub const MAX_EDGES: usize = 100;

/// Sort order for edge queries.
#[derive(Debug, Clone, Copy, PartialEq, Eq, Structural)]
pub enum SortOrder {
    /// Ascending order (smallest to largest).
    Asc,
    /// Descending order (largest to smallest).
    Desc,
}

/// A position in the edge order: a sort key and a destination.
#[derive(Debug, Clone, PartialEq, Eq)]
pub struct EdgeCursor<'a> {
    /// The sort key value at the cursor position.
    pub sort_key: &'a [u8],
    /// The destination id at the cursor position.
    pub destination: Id,
}

impl<'a> EdgeCursor<'a> {
    /// Creates a cursor.
    pub fn new(sort_key: &'a [u8], destination: Id) -> (r: Self)
        ensures
            r.sort_key@ == sort_key@,
            r.destination == destination,
    {
        EdgeCursor { sort_key, destination }
    }

    /// The position that the cursor stands at.
    pub open spec fn pos(&self) -> (Seq<u8>, Id) {
        (self.sort_key@, self.destination)
    }
}

/// An edge as a query returns it.
#[derive(Debug, Clone, PartialEq, Eq)]
pub struct Edge {
    /// Source entity id.
    pub source: Id,
    /// Sort key for ordering.
    pub sort_key: Vec<u8>,
    /// Destination entity id.
    pub dest: Id,
}

impl View for Edge {
    type V = (Id, Seq<u8>, Id);

    open spec fn view(&self) -> (Id, Seq<u8>, Id) {
        (self.source, self.sort_key@, self.dest)
    }
}

impl Edge {
    /// Creates an edge.
    pub fn new(source: Id, sort_key: Vec<u8>, dest: Id) -> (r: Self)
        ensures
            r@ == (source, sort_key@, dest),
    {
        Edge { source, sort_key, dest }
    }
}

/// Query parameters for edge enumeration.
#[derive(Debug, Clone)]
pub struct EdgeQuery<'a> {
    /// Sort keys to keep; an empty list keeps every sort key.
    pub edge_names: &'a [&'a [u8]],
    /// Order of the results.
    pub order: SortOrder,
    /// Resume point: ascending queries return edges after it, descending
    /// queries edges before it.
    pub cursor: Option<EdgeCursor<'a>>,
}

impl<'a> EdgeQuery<'a> {
    /// A query in ascending order, without a cursor.
    pub fn asc(edge_names: &'a [&'a [u8]]) -> (r: Self)
        ensures
            r.edge_names@ == edge_names@,
            r.order == SortOrder::Asc,
            r.cursor.is_none(),
    {
        EdgeQuery { edge_names, order: SortOrder::Asc, cursor: None }
    }

    /// A query in descending order, without a cursor.
    pub fn desc(edge_names: &'a [&'a [u8]]) -> (r: Self)
        ensures
            r.edge_names@ == edge_names@,
            r.order == SortOrder::Desc,
            r.cursor.is_none(),
    {
        EdgeQuery { edge_names, order: SortOrder::Desc, cursor: None }
    }

    /// The same query, resumed at `cursor`.
    pub fn with_cursor(self, cursor: EdgeCursor<'a>) -> (r: Self)
        ensures
            r.edge_names@ == self.edge_names@,
            r.order == self.order,
            r.cursor == Some(cursor),
    {
        EdgeQuery { edge_names: self.edge_names, order: self.order, cursor: Some(cursor) }
    }

    /// The same query, resumed at `cursor` if there is one.
    pub fn with_cursor_opt(self, cursor: Option<EdgeCursor<'a>>) -> (r: Self)
        ensures
            r.edge_names@ == self.edge_names@,
            r.order == self.order,
            r.cursor == cursor,
    {
        EdgeQuery { edge_names: self.edge_names, order: self.order, cursor }
    }

    /// The query keeps edges with sort key `k`.
    pub open spec fn keeps_name(&self, k: Seq<u8>) -> bool {
        self.edge_names@.len() == 0 || exists|j: int|
            0 <= j < self.edge_names@.len() && #[trigger] self.edge_names@[j]@ == k
    }

    /// The query returns the edge `e` of `source`, page size aside.
    pub open spec fn selects(&self, source: Id, e: (Id, Seq<u8>, Id)) -> bool {
        &&& e.0 == source
        &&& self.keeps_name(e.1)
        &&& match self.cursor {
            None => true,
            Some(c) => before(self.order, c.pos(), (e.1, e.2)),
        }
    }
}

/// The set of edges that a list holds.
pub open spec fn edge_set(s: Seq<Edge>) -> Set<(Id, Seq<u8>, Id)> {
    Set::new(|t: (Id, Seq<u8>, Id)| exists|i: int| 0 <= i < s.len() && s[i]@ == t)
}

/// Enumerates edges by source.
pub trait QueryEdge {
    /// The edges that the store holds. Backends written outside the
    /// verified library keep this default; for them the contract of
    /// `find_edges` is not checked.
    open spec fn spec_edge_list(&self) -> Seq<Edge> {
        Seq::empty()
    }

    /// The store's operations cannot fail: a store in memory. Backends that
    /// do I/O keep the default.
    open spec fn spec_infallible(&self) -> bool {
        false
    }

    /// Returns up to `MAX_EDGES` edges of `source` that `query` selects, in
    /// its order.
    fn find_edges(&self, source: Id, query: EdgeQuery) -> (r: Result<Vec<Edge>, DatabaseError>)
        ensures
            r matches Ok(v) ==> is_page(self.spec_edge_list(), source, query, v@),
            self.spec_infallible() ==> r is Ok,
    ;
}

/// Order on positions: by sort key, then destination.
pub open spec fn pos_lt(a: (Seq<u8>, Id), b: (Seq<u8>, Id)) -> bool {
    lex_lt(a.0, b.0) || (a.0 == b.0 && a.1 < b.1)
}

/// `a` comes before `b` in the given order.
pub open spec fn before(order: SortOrder, a: (Seq<u8>, Id), b: (Seq<u8>, Id)) -> bool {
    match order {
        SortOrder::Asc => pos_lt(a, b),
        SortOrder::Desc => pos_lt(b, a),
    }
}

/// The position of an edge in the order.
pub open spec fn pos_of(e: (Id, Seq<u8>, Id)) -> (Seq<u8>, Id) {
    (e.1, e.2)
}

/// `s` is strictly ordered by `order`.
pub open spec fn strictly_ordered(s: Seq<Edge>, order: SortOrder) -> bool {
    forall|i: int, j: int|
        0 <= i < j < s.len() ==> before(order, pos_of(#[trigger] s[i]@), pos_of(#[trigger] s[j]@))
}

/// The edges that a query over `stored` and `source` returns, in order.
///
/// The result holds the first `MAX_EDGES` of the selected edges (or all of
/// them, if there are fewer), each once, in the query's order.
pub open spec fn is_page(stored: Seq<Edge>, source: Id, query: EdgeQuery, r: Seq<Edge>) -> bool {
    &&& r.len() <= MAX_EDGES
    &&& strictly_ordered(r, query.order)
    &&& forall|i: int|
        0 <= i < r.len() ==> query.selects(source, #[trigger] r[i]@) && exists|j: int|
            0 <= j < stored.len() && stored[j]@ == r[i]@
    &&& forall|j: int|
        0 <= j < stored.len() && query.selects(source, #[trigger] stored[j]@) ==> (exists|i: int|
            0 <= i < r.len() && r[i]@ == stored[j]@) || (r.len() == MAX_EDGES && before(
            query.order,
            pos_of(r[r.len() - 1]@),
            pos_of(stored[j]@),
        ))
}

proof fn lemma_pos_irreflexive(a: (Seq<u8>, Id))
    ensures
        !pos_lt(a, a),
{
    lemma_lex_irreflexive(a.0);
}

proof fn lemma_pos_transitive(a: (Seq<u8>, Id), b: (Seq<u8>, Id), c: (Seq<u8>, Id))
    requires
        pos_lt(a, b),
        pos_lt(b, c),
    ensures
        pos_lt(a, c),
{
    if lex_lt(a.0, b.0) && lex_lt(b.0, c.0) {
        lemma_lex_transitive(a.0, b.0, c.0);
    }
}

proof fn lemma_pos_total(a: (Seq<u8>, Id), b: (Seq<u8>, Id))
    requires
        a != b,
    ensures
        pos_lt(a, b) || pos_lt(b, a),
{
    if a.0 != b.0 {
        lemma_lex_total(a.0, b.0);
    }
}

proof fn lemma_pos_asymmetric(a: (Seq<u8>, Id), b: (Seq<u8>, Id))
    ensures
        !(pos_lt(a, b) && pos_lt(b, a)),
{
    lemma_lex_asymmetric(a.0, b.0);
    lemma_lex_irreflexive(a.0);
}

proof fn lemma_before_transitive(o: SortOrder, a: (Seq<u8>, Id), b: (Seq<u8>, Id), c: (Seq<u8>, Id))
    requires
        before(o, a, b),
        before(o, b, c),
    ensures
        before(o, a, c),
{
    match o {
        SortOrder::Asc => lemma_pos_transitive(a, b, c),
        SortOrder::Desc => lemma_pos_transitive(c, b, a),
    }
}

/// Decides `lex_lt` on two byte strings.
pub fn bytes_lt(a: &[u8], b: &[u8]) -> (r: bool)
    ensures
        r == lex_lt(a@, b@),
{
    let mut i: usize = 0;
    assert(a@.subrange(0, a@.len() as int) =~= a@);
    assert(b@.subrange(0, b@.len() as int) =~= b@);
    while i < a.len() && i < b.len() && a[i] == b[i]
        invariant
            i <= a@.len(),
            i <= b@.len(),
            lex_lt(a@, b@) == lex_lt(a@.subrange(i as int, a@.len() as int), b@.subrange(i as int, b@.len() as int)),
        decreases a@.len() - i,
    {
        proof {
            let (x, y) = (a@.subrange(i as int, a@.len() as int), b@.subrange(i as int, b@.len() as int));
            assert(x.drop_first() =~= a@.subrange(i + 1, a@.len() as int));
            assert(y.drop_first() =~= b@.subrange(i + 1, b@.len() as int));
        }
        i += 1;
    }
    let ghost (x, y) = (a@.subrange(i as int, a@.len() as int), b@.subrange(i as int, b@.len() as int));
    if i == a.len() {
        i < b.len()
    } else if i == b.len() {
        false
    } else {
        assert(x[0] == a@[i as int] && y[0] == b@[i as int]);
        a[i] < b[i]
    }
}

/// Decides equality of two byte strings.
pub fn bytes_eq(a: &[u8], b: &[u8]) -> (r: bool)
    ensures
        r == (a@ == b@),
{
    if a.len() != b.len() {
        return false;
    }
    let mut i: usize = 0;
    while i < a.len()
        invariant
            i <= a@.len() == b@.len(),
            a@.subrange(0, i as int) == b@.subrange(0, i as int),
        decreases a@.len() - i,
    {
        if a[i] != b[i] {
            return false;
        }
        assert(a@.subrange(0, i + 1) =~= a@.subrange(0, i as int).push(a@[i as int]));
        assert(b@.subrange(0, i + 1) =~= b@.subrange(0, i as int).push(b@[i as int]));
        i += 1;
    }
    assert(a@ =~= a@.subrange(0, i as int));
    assert(b@ =~= b@.subrange(0, i as int));
    true
}

/// Decides `before(order, (k1, d1), (k2, d2))`.
fn pos_before(order: SortOrder, k1: &[u8], d1: Id, k2: &[u8], d2: Id) -> (r: bool)
    ensures
        r == before(order, (k1@, d1), (k2@, d2)),
{
    match order {
        SortOrder::Asc => bytes_lt(k1, k2) || (bytes_eq(k1, k2) && d1 < d2),
        SortOrder::Desc => bytes_lt(k2, k1) || (bytes_eq(k1, k2) && d2 < d1),
    }
}

/// Decides `query.keeps_name(k)`.
fn keeps_name(query: &EdgeQuery, k: &[u8]) -> (r: bool)
    ensures
        r == query.keeps_name(k@),
{
    let names = query.edge_names;
    if names.len() == 0 {
        return true;
    }
    let mut j: usize = 0;
    while j < names.len()
        invariant
            j <= names@.len(),
            names@ == query.edge_names@,
            forall|m: int| 0 <= m < j ==> names@[m]@ != k@,
        decreases names@.len() - j,
    {
        if bytes_eq(names[j], k) {
            return true;
        }
        j += 1;
    }
    false
}

/// Decides `query.selects(source, e@)`.
pub fn selects(query: &EdgeQuery, source: Id, e: &Edge) -> (r: bool)
    ensures
        r == query.selects(source, e@),
{
    if e.source != source || !keeps_name(query, e.sort_key.as_slice()) {
        return false;
    }
    match &query.cursor {
        None => true,
        Some(c) => pos_before(query.order, c.sort_key, c.destination, e.sort_key.as_slice(), e.dest),
    }
}

/// A copy of the bytes of `v`.
pub fn copy_bytes(v: &[u8]) -> (r: Vec<u8>)
    ensures
        r@ == v@,
{
    let mut r: Vec<u8> = Vec::new();
    let mut i: usize = 0;
    while i < v.len()
        invariant
            i <= v@.len(),
            r@ == v@.subrange(0, i as int),
        decreases v@.len() - i,
    {
        r.push(v[i]);
        i += 1;
        assert(r@ =~= v@.subrange(0, i as int));
    }
    assert(v@ =~= v@.subrange(0, i as int));
    r
}

/// A copy of an edge.
pub fn copy_edge(e: &Edge) -> (r: Edge)
    ensures
        r@ == e@,
{
    Edge { source: e.source, sort_key: copy_bytes(e.sort_key.as_slice()), dest: e.dest }
}

proof fn lemma_before_irreflexive(o: SortOrder, a: (Seq<u8>, Id))
    ensures
        !before(o, a, a),
{
    lemma_pos_irreflexive(a);
}

proof fn lemma_before_asymmetric(o: SortOrder, a: (Seq<u8>, Id), b: (Seq<u8>, Id))
    ensures
        !(before(o, a, b) && before(o, b, a)),
{
    lemma_pos_asymmetric(a, b);
}

/// Where two pages over the same edges agree before index `i`, the second
/// has an edge at `i` too, and the first's edge there does not come before
/// it.
proof fn lemma_pages_no_earlier(
    sa: Seq<Edge>,
    sb: Seq<Edge>,
    source: Id,
    query: EdgeQuery,
    ra: Seq<Edge>,
    rb: Seq<Edge>,
    i: int,
)
    requires
        edge_set(sa) == edge_set(sb),
        is_page(sa, source, query, ra),
        is_page(sb, source, query, rb),
        0 <= i < ra.len(),
        forall|k: int| 0 <= k < i ==> ra[k]@ == rb[k]@,
    ensures
        i < rb.len(),
        !before(query.order, pos_of(ra[i]@), pos_of(rb[i]@)),
{
    let o = query.order;
    let t = ra[i]@;
    let pa = pos_of(t);
    if !(i < rb.len() && !before(o, pa, pos_of(rb[i]@))) {
        let j = choose|j: int| 0 <= j < sa.len() && sa[j]@ == ra[i]@;
        assert(edge_set(sa).contains(t));
        assert(edge_set(sb).contains(t));
        let k = choose|k: int| 0 <= k < sb.len() && sb[k]@ == t;
        assert(query.selects(source, sb[k]@));
        lemma_before_irreflexive(o, pa);
        if exists|m: int| 0 <= m < rb.len() && rb[m]@ == sb[k]@ {
            let m = choose|m: int| 0 <= m < rb.len() && rb[m]@ == sb[k]@;
            if m < i {
                assert(ra[m]@ == t);
                assert(before(o, pos_of(ra[m]@), pos_of(ra[i]@)));
            } else if m > i {
                assert(before(o, pos_of(rb[i]@), pos_of(rb[m]@)));
                lemma_before_asymmetric(o, pa, pos_of(rb[i]@));
            }
        } else {
            let last = rb.len() - 1;
            assert(rb.len() == MAX_EDGES && before(o, pos_of(rb[last]@), pa));
            if i == last {
                lemma_before_asymmetric(o, pa, pos_of(rb[i]@));
            } else if i < last {
                assert(before(o, pos_of(rb[i]@), pos_of(rb[last]@)));
                lemma_before_transitive(o, pos_of(rb[i]@), pos_of(rb[last]@), pa);
                lemma_before_asymmetric(o, pa, pos_of(rb[i]@));
            }
        }
    }
}

/// Two pages over the same edges agree at every index below `n`.
proof fn lemma_pages_agree_upto(
    s1: Seq<Edge>,
    s2: Seq<Edge>,
    source: Id,
    query: EdgeQuery,
    r1: Seq<Edge>,
    r2: Seq<Edge>,
    n: int,
)
    requires
        edge_set(s1) == edge_set(s2),
        is_page(s1, source, query, r1),
        is_page(s2, source, query, r2),
        0 <= n <= r1.len(),
        n <= r2.len(),
    ensures
        forall|k: int| 0 <= k < n ==> r1[k]@ == r2[k]@,
    decreases n,
{
    if n > 0 {
        let i = n - 1;
        lemma_pages_agree_upto(s1, s2, source, query, r1, r2, i);
        let (a, b) = (r1[i]@, r2[i]@);
        if a != b {
            assert(query.selects(source, a) && query.selects(source, b));
            if pos_of(a) == pos_of(b) {
                assert(a == b);
            }
            lemma_pos_total(pos_of(a), pos_of(b));
            lemma_pages_no_earlier(s1, s2, source, query, r1, r2, i);
            lemma_pages_no_earlier(s2, s1, source, query, r2, r1, i);
        }
    }
}

/// A page depends on the edges stored alone: two stores that hold the same
/// edges answer a query with the same edges in the same order, whatever
/// order or repetition their lists have.
pub proof fn lemma_page_determined(
    s1: Seq<Edge>,
    s2: Seq<Edge>,
    source: Id,
    query: EdgeQuery,
    r1: Seq<Edge>,
    r2: Seq<Edge>,
)
    requires
        edge_set(s1) == edge_set(s2),
        is_page(s1, source, query, r1),
        is_page(s2, source, query, r2),
    ensures
        r1.len() == r2.len(),
        forall|i: int| 0 <= i < r1.len() ==> (#[trigger] r1[i])@ == r2[i]@,
{
    let n = if r1.len() < r2.len() { r1.len() } else { r2.len() };
    lemma_pages_agree_upto(s1, s2, source, query, r1, r2, n as int);
    if r1.len() < r2.len() {
        lemma_pages_no_earlier(s2, s1, source, query, r2, r1, n as int);
    } else if r2.len() < r1.len() {
        lemma_pages_no_earlier(s1, s2, source, query, r1, r2, n as int);
    }
    assert forall|k: int| 0 <= k < r1.len() implies (#[trigger] r1[k])@ == r2[k]@ by {
        assert(k < n);
    }
}

/// `e` comes after `last` in `order`, or nothing has been taken yet.
pub open spec fn after_opt(order: SortOrder, last: Option<(Seq<u8>, Id)>, e: (Seq<u8>, Id)) -> bool {
    match last {
        None => true,
        Some(l) => before(order, l, e),
    }
}

/// The position of `last`, if there is one.
pub open spec fn last_pos(last: Option<&Edge>) -> Option<(Seq<u8>, Id)> {
    match last {
        None => None,
        Some(l) => Some(pos_of(l@)),
    }
}

/// Finds the first selected edge after `last` in the query's order.
fn next_selected(stored: &Vec<Edge>, source: Id, query: &EdgeQuery, last: Option<&Edge>) -> (r: Option<usize>)
    ensures
        match r {
            None => forall|j: int|
                0 <= j < stored@.len() && query.selects(source, #[trigger] stored@[j]@) ==> !after_opt(
                    query.order,
                    last_pos(last),
                    pos_of(stored@[j]@),
                ),
            Some(b) => {
                &&& b < stored@.len()
                &&& query.selects(source, stored@[b as int]@)
                &&& after_opt(query.order, last_pos(last), pos_of(stored@[b as int]@))
                &&& forall|j: int|
                    0 <= j < stored@.len() && query.selects(source, #[trigger] stored@[j]@) && after_opt(
                        query.order,
                        last_pos(last),
                        pos_of(stored@[j]@),
                    ) ==> !before(query.order, pos_of(stored@[j]@), pos_of(stored@[b as int]@))
            },
        },
{
    let ghost order = query.order;
    let ghost lp = last_pos(last);
    let mut best: Option<usize> = None;
    let mut i: usize = 0;
    while i < stored.len()
        invariant
            i <= stored@.len(),
            order == query.order,
            lp == last_pos(last),
            match best {
                None => forall|j: int|
                    0 <= j < i && query.selects(source, #[trigger] stored@[j]@) ==> !after_opt(
                        order,
                        lp,
                        pos_of(stored@[j]@),
                    ),
                Some(b) => {
                    &&& b < i
                    &&& query.selects(source, stored@[b as int]@)
                    &&& after_opt(order, lp, pos_of(stored@[b as int]@))
                    &&& forall|j: int|
                        0 <= j < i && query.selects(source, #[trigger] stored@[j]@) && after_opt(
                            order,
                            lp,
                            pos_of(stored@[j]@),
                        ) ==> !before(order, pos_of(stored@[j]@), pos_of(stored@[b as int]@))
                },
            },
        decreases stored@.len() - i,
    {
        let e = &stored[i];
        let ghost pi = pos_of(stored@[i as int]@);
        proof {
            lemma_pos_irreflexive(pi);
        }
        if selects(query, source, e) {
            let after_last = match last {
                None => true,
                Some(l) => pos_before(query.order, l.sort_key.as_slice(), l.dest, e.sort_key.as_slice(), e.dest),
            };
            assert(after_last == after_opt(order, lp, pi));
            if after_last {
                match best {
                    None => {
                        best = Some(i);
                    },
                    Some(b) => {
                        let cur = &stored[b];
                        let ghost pb = pos_of(stored@[b as int]@);
                        if pos_before(query.order, e.sort_key.as_slice(), e.dest, cur.sort_key.as_slice(), cur.dest) {
                            assert(before(order, pi, pb));
                            assert forall|j: int|
                                0 <= j < i && query.selects(source, #[trigger] stored@[j]@) && after_opt(
                                    order,
                                    lp,
                                    pos_of(stored@[j]@),
                                ) implies !before(order, pos_of(stored@[j]@), pi) by {
                                let pj = pos_of(stored@[j]@);
                                if before(order, pj, pi) {
                                    lemma_before_transitive(order, pj, pi, pb);
                                }
                            }
                            best = Some(i);
                        }
                    },
                }
            }
        }
        i += 1;
    }
    best
}

/// Every edge of `out` is a selected edge of `stored`.
#[verifier::opaque]
pub open spec fn taken_from(stored: Seq<Edge>, source: Id, query: EdgeQuery, out: Seq<Edge>) -> bool {
    forall|i: int|
        0 <= i < out.len() ==> query.selects(source, #[trigger] out[i]@) && exists|j: int|
            0 <= j < stored.len() && stored[j]@ == out[i]@
}

/// No selected edge of `stored` lies at or before the last edge of `out`
/// without being in `out`.
#[verifier::opaque]
pub open spec fn none_skipped(stored: Seq<Edge>, source: Id, query: EdgeQuery, out: Seq<Edge>) -> bool {
    forall|j: int|
        0 <= j < stored.len() && query.selects(source, #[trigger] stored[j]@) ==> (exists|i: int|
            0 <= i < out.len() && out[i]@ == stored[j]@) || out.len() == 0 || before(
            query.order,
            pos_of(out[out.len() - 1]@),
            pos_of(stored[j]@),
        )
}

/// Runs `query` over the edges of `source` among `stored`: keeps the edges
/// whose sort key the query names (all, if it names none), orders them by
/// `(sort_key, dest)` in the query's order, keeps those past the cursor, and
/// returns the first `MAX_EDGES`, each once.
pub fn select_edges(stored: &Vec<Edge>, source: Id, query: &EdgeQuery) -> (r: Vec<Edge>)
    ensures
        is_page(stored@, source, *query, r@),
{
    let ghost order = query.order;
    let mut out: Vec<Edge> = Vec::new();
    proof {
        reveal(taken_from);
        reveal(none_skipped);
    }
    loop
        invariant
            order == query.order,
            out@.len() <= MAX_EDGES,
            strictly_ordered(out@, order),
            taken_from(stored@, source, *query, out@),
            none_skipped(stored@, source, *query, out@),
        ensures
            is_page(stored@, source, *query, out@),
        decreases MAX_EDGES - out@.len(),
    {
        if out.len() >= MAX_EDGES {
            proof {
                lemma_page_full(stored@, source, *query, out@);
            }
            break;
        }
        let last = if out.len() == 0 {
            None
        } else {
            Some(&out[out.len() - 1])
        };
        let next = next_selected(stored, source, query, last);
        match next {
            None => {
                proof {
                    lemma_page_exhausted(stored@, source, *query, out@);
                }
                break;
            },
            Some(b) => {
                let ghost old_out = out@;
                let e = copy_edge(&stored[b]);
                out.push(e);
                proof {
                    assert(pushed(old_out, out@, stored@[b as int]@));
                    lemma_push_ordered(old_out, out@, stored@[b as int]@, order);
                    lemma_push_members(stored@, source, *query, old_out, out@, b as int);
                    lemma_push_complete(stored@, source, *query, old_out, out@, b as int);
                }
            },
        }
    }
    out
}

/// A full page is a page.
proof fn lemma_page_full(stored: Seq<Edge>, source: Id, query: EdgeQuery, out: Seq<Edge>)
    requires
        out.len() == MAX_EDGES,
        strictly_ordered(out, query.order),
        taken_from(stored, source, query, out),
        none_skipped(stored, source, query, out),
    ensures
        is_page(stored, source, query, out),
{
    reveal(taken_from);
    reveal(none_skipped);
}

/// With no candidate left, what was taken is a page.
proof fn lemma_page_exhausted(stored: Seq<Edge>, source: Id, query: EdgeQuery, out: Seq<Edge>)
    requires
        out.len() <= MAX_EDGES,
        strictly_ordered(out, query.order),
        taken_from(stored, source, query, out),
        none_skipped(stored, source, query, out),
        forall|j: int|
            0 <= j < stored.len() && query.selects(source, #[trigger] stored[j]@) ==> !after_opt(
                query.order,
                if out.len() == 0 { None } else { Some(pos_of(out[out.len() - 1]@)) },
                pos_of(stored[j]@),
            ),
    ensures
        is_page(stored, source, query, out),
{
    reveal(taken_from);
    reveal(none_skipped);
    assert forall|j: int|
        0 <= j < stored.len() && query.selects(source, #[trigger] stored[j]@) implies exists|i: int|
            0 <= i < out.len() && out[i]@ == stored[j]@ by {
        assert(out.len() > 0);
    }
}

/// `s` is `old` with `x` appended, as far as views go.
pub open spec fn pushed(old: Seq<Edge>, s: Seq<Edge>, x: (Id, Seq<u8>, Id)) -> bool {
    &&& s.len() == old.len() + 1
    &&& forall|i: int| 0 <= i < old.len() ==> s[i] == old[i]
    &&& s[old.len() as int]@ == x
}

/// Appending an edge after the last keeps a sequence strictly ordered.
proof fn lemma_push_ordered(old: Seq<Edge>, s: Seq<Edge>, x: (Id, Seq<u8>, Id), order: SortOrder)
    requires
        pushed(old, s, x),
        strictly_ordered(old, order),
        old.len() == 0 || before(order, pos_of(old[old.len() - 1]@), pos_of(x)),
    ensures
        strictly_ordered(s, order),
{
    let n = old.len() as int;
    assert forall|a: int, b: int| 0 <= a < b < s.len() implies before(
        order,
        pos_of(#[trigger] s[a]@),
        pos_of(#[trigger] s[b]@),
    ) by {
        assert(s[a] == old[a]);
        if b == n {
            if a < n - 1 {
                assert(before(order, pos_of(old[a]@), pos_of(old[n - 1]@)));
                lemma_before_transitive(order, pos_of(old[a]@), pos_of(old[n - 1]@), pos_of(x));
            }
        } else {
            assert(s[b] == old[b]);
        }
    }
}

/// Every edge taken is a selected edge of `stored`.
proof fn lemma_push_members(stored: Seq<Edge>, source: Id, query: EdgeQuery, old: Seq<Edge>, s: Seq<Edge>, b: int)
    requires
        0 <= b < stored.len(),
        pushed(old, s, stored[b]@),
        query.selects(source, stored[b]@),
        taken_from(stored, source, query, old),
    ensures
        taken_from(stored, source, query, s),
{
    reveal(taken_from);
    assert forall|i: int| 0 <= i < s.len() implies query.selects(source, #[trigger] s[i]@) && exists|j: int|
        0 <= j < stored.len() && stored[j]@ == s[i]@ by {
        if i < old.len() {
            assert(s[i] == old[i]);
        } else {
            assert(stored[b]@ == s[i]@);
        }
    }
}

/// Taking the least candidate leaves no selected edge behind.
proof fn lemma_push_complete(stored: Seq<Edge>, source: Id, query: EdgeQuery, old: Seq<Edge>, s: Seq<Edge>, b: int)
    requires
        0 <= b < stored.len(),
        pushed(old, s, stored[b]@),
        query.selects(source, stored[b]@),
        none_skipped(stored, source, query, old),
        forall|j: int|
            0 <= j < stored.len() && query.selects(source, #[trigger] stored[j]@) && after_opt(
                query.order,
                if old.len() == 0 { None } else { Some(pos_of(old[old.len() - 1]@)) },
                pos_of(stored[j]@),
            ) ==> !before(query.order, pos_of(stored[j]@), pos_of(stored[b]@)),
    ensures
        none_skipped(stored, source, query, s),
{
    reveal(none_skipped);
    let order = query.order;
    let pb = pos_of(stored[b]@);
    let n = old.len() as int;
    assert forall|j: int| 0 <= j < stored.len() && query.selects(source, #[trigger] stored[j]@) implies (exists|i: int|
        0 <= i < s.len() && s[i]@ == stored[j]@) || s.len() == 0 || before(
        order,
        pos_of(s[s.len() - 1]@),
        pos_of(stored[j]@),
    ) by {
        let pj = pos_of(stored[j]@);
        if exists|i: int| 0 <= i < n && old[i]@ == stored[j]@ {
            let i = choose|i: int| 0 <= i < n && old[i]@ == stored[j]@;
            assert(s[i] == old[i]);
        } else {
            assert(!before(order, pj, pb));
            if pj == pb {
                assert(stored[j]@ == stored[b]@);
                assert(s[n]@ == stored[j]@);
            } else {
                lemma_pos_total(pj, pb);
            }
        }
    }
}

} // verus!
