//! Edge drafts: the edges that an entity's fields call for, checked against
//! a transaction before they are written.
use vstd::prelude::*;

use crate::entity::Ent;
use crate::query_edge::{bytes_eq, QueryEdge};
use crate::{DatabaseError, Id};

verus! {

/// An edge as a triple of plain values.
pub type EdgeTriple = (Id, Seq<u8>, Id);

/// A validated edge, ready to be written.
#[derive(Debug, Clone, PartialEq, Eq)]
pub struct EdgeValue {
    /// The source entity id.
    pub source: Id,
    /// The edge's sort key (any bytes).
    pub sort_key: Vec<u8>,
    /// The destination entity id.
    pub dest: Id,
}

impl View for EdgeValue {
    type V = EdgeTriple;

    open spec fn view(&self) -> EdgeTriple {
        (self.source, self.sort_key@, self.dest)
    }
}

impl EdgeValue {
    /// Creates an edge value.
    pub fn new(source: Id, sort_key: Vec<u8>, dest: Id) -> (r: Self)
        ensures
            r@ == (source, sort_key@, dest),
    {
        EdgeValue { source, sort_key, dest }
    }
}

/// The triples of a list of edge values, in order.
pub open spec fn triples(s: Seq<EdgeValue>) -> Seq<EdgeTriple> {
    s.map_values(|e: EdgeValue| e@)
}

/// Why a draft's edges were refused.
#[derive(Debug)]
pub enum DraftError {
    /// The source entity does not exist.
    SourceNotFound(Id),
    /// The destination entity does not exist.
    DestNotFound(Id),
    /// The edge type is not accepted.
    InvalidEdgeType(String),
    /// A query made while checking failed.
    Database(DatabaseError),
    /// The entity's state breaks a rule of its edges.
    ValidationFailed(String),
}

/// The edges that an entity's state calls for, before validation.
pub trait EdgeDraft: Sized {
    /// The edges of the draft, in order.
    spec fn spec_edges(&self) -> Seq<EdgeTriple>;

    /// The edges of the draft, without validation.
    fn edges(&self) -> (r: Vec<EdgeValue>)
        ensures
            triples(r@) == self.spec_edges(),
    ;

    /// The draft passes its validation.
    spec fn spec_accepted(&self) -> bool;

    /// Validates the draft against `txn` and yields its edges. It fails
    /// with `Database` only where a query of `txn` failed, and otherwise
    /// only where the draft is not accepted.
    fn check<T: QueryEdge>(self, txn: &T) -> (r: Result<Vec<EdgeValue>, DraftError>)
        ensures
            r matches Ok(v) ==> triples(v@) == self.spec_edges(),
            r matches Err(e) ==> if e is Database {
                !txn.spec_infallible()
            } else {
                !self.spec_accepted()
            },
    ;
}

/// Computes the draft of an entity of type `E`.
pub trait EdgeProvider<E: Ent> {
    type Draft: EdgeDraft;

    /// The edges that the fields of `ent` call for.
    spec fn spec_draft(ent: &E) -> Seq<EdgeTriple>;

    /// The draft of `ent` passes its validation.
    spec fn spec_draft_accepted(ent: &E) -> bool;

    fn draft(ent: &E) -> (r: Self::Draft)
        ensures
            r.spec_edges() == Self::spec_draft(ent),
            r.spec_accepted() == Self::spec_draft_accepted(ent),
    ;
}

/// An entity whose edges a provider derives from its fields.
pub trait EntWithEdges: Ent {
    type EdgeProvider: EdgeProvider<Self>;
}

/// The draft of an entity without edges.
#[derive(Debug, Clone, Copy, PartialEq, Eq, Structural)]
pub struct NullEdgeDraft;

impl EdgeDraft for NullEdgeDraft {
    open spec fn spec_edges(&self) -> Seq<EdgeTriple> {
        Seq::empty()
    }

    open spec fn spec_accepted(&self) -> bool {
        true
    }

    fn edges(&self) -> (r: Vec<EdgeValue>) {
        let v: Vec<EdgeValue> = Vec::new();
        assert(triples(v@) =~= Seq::empty());
        v
    }

    fn check<T: QueryEdge>(self, txn: &T) -> (r: Result<Vec<EdgeValue>, DraftError>)
        ensures
            r is Ok,
    {
        Ok(self.edges())
    }
}

/// The provider of entities without edges.
pub struct NullEdgeProvider;

impl<E: Ent> EdgeProvider<E> for NullEdgeProvider {
    type Draft = NullEdgeDraft;

    open spec fn spec_draft(ent: &E) -> Seq<EdgeTriple> {
        Seq::empty()
    }

    open spec fn spec_draft_accepted(ent: &E) -> bool {
        true
    }

    fn draft(ent: &E) -> (r: NullEdgeDraft) {
        NullEdgeDraft
    }
}

/// `a` followed by the edges of `b`.
pub fn append_edges(a: &mut Vec<EdgeValue>, b: &Vec<EdgeValue>)
    ensures
        triples(final(a)@) == triples(old(a)@) + triples(b@),
{
    let ghost first = a@;
    let mut i: usize = 0;
    while i < b.len()
        invariant
            i <= b@.len(),
            triples(a@) == triples(first) + triples(b@.subrange(0, i as int)),
        decreases b@.len() - i,
    {
        let ghost before = a@;
        a.push(copy_edge_value(&b[i]));
        assert(triples(a@) =~= triples(before).push(b@[i as int]@));
        assert(triples(b@.subrange(0, i + 1)) =~= triples(b@.subrange(0, i as int)).push(b@[i as int]@));
        i += 1;
    }
    assert(b@.subrange(0, i as int) =~= b@);
}

/// Two drafts together: the edges of the first, then those of the second.
impl<A: EdgeDraft, B: EdgeDraft> EdgeDraft for (A, B) {
    open spec fn spec_edges(&self) -> Seq<EdgeTriple> {
        self.0.spec_edges() + self.1.spec_edges()
    }

    open spec fn spec_accepted(&self) -> bool {
        self.0.spec_accepted() && self.1.spec_accepted()
    }

    fn edges(&self) -> (r: Vec<EdgeValue>) {
        let mut v = self.0.edges();
        let w = self.1.edges();
        append_edges(&mut v, &w);
        v
    }

    fn check<T: QueryEdge>(self, txn: &T) -> (r: Result<Vec<EdgeValue>, DraftError>) {
        let (a, b) = self;
        let mut edges = match a.check(txn) {
            Ok(v) => v,
            Err(e) => return Err(e),
        };
        let rest = match b.check(txn) {
            Ok(v) => v,
            Err(e) => return Err(e),
        };
        append_edges(&mut edges, &rest);
        Ok(edges)
    }
}

/// Decides whether two edge lists hold the same edges in the same order.
pub fn same_edges(a: &Vec<EdgeValue>, b: &Vec<EdgeValue>) -> (r: bool)
    ensures
        r == (triples(a@) == triples(b@)),
{
    if a.len() != b.len() {
        assert(triples(a@).len() != triples(b@).len());
        return false;
    }
    let mut i: usize = 0;
    while i < a.len()
        invariant
            i <= a@.len() == b@.len(),
            forall|j: int| 0 <= j < i ==> a@[j]@ == b@[j]@,
        decreases a@.len() - i,
    {
        let (x, y) = (&a[i], &b[i]);
        if x.source != y.source || x.dest != y.dest || !bytes_eq(x.sort_key.as_slice(), y.sort_key.as_slice()) {
            assert(triples(a@)[i as int] != triples(b@)[i as int]);
            return false;
        }
        i += 1;
    }
    assert(triples(a@) =~= triples(b@));
    true
}

/// A copy of an edge value.
pub fn copy_edge_value(e: &EdgeValue) -> (r: EdgeValue)
    ensures
        r@ == e@,
{
    EdgeValue {
        source: e.source,
        sort_key: crate::query_edge::copy_bytes(e.sort_key.as_slice()),
        dest: e.dest,
    }
}

} // verus!
