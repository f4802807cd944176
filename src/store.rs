//! The transactional contract, and an in-memory store that realizes it.
use std::collections::HashMap;

use vstd::prelude::*;

use crate::edge_provider::{
    copy_edge_value, same_edges, triples, DraftError, EdgeDraft, EdgeProvider, EdgeTriple, EdgeValue, EntWithEdges,
};
use crate::entity::{AnyEnt, AnyEntView, Ent};
use crate::query_edge::{bytes_eq, copy_edge, edge_set, is_page, select_edges, Edge, EdgeQuery, QueryEdge};
use crate::{DatabaseError, Id};

verus! {

broadcast use vstd::std_specs::hash::group_hash_axioms;

/// The set of triples of a list of edge values.
pub open spec fn triple_set(s: Seq<EdgeTriple>) -> Set<EdgeTriple> {
    Set::new(|t: EdgeTriple| s.contains(t))
}

/// The edges after a reconciliation from draft `before` to draft `after`:
/// unchanged where the drafts are equal, else without the edges of
/// `before` and with those of `after`.
pub open spec fn reconciled(
    edges: Set<EdgeTriple>,
    before: Seq<EdgeTriple>,
    after: Seq<EdgeTriple>,
) -> Set<EdgeTriple> {
    if before == after {
        edges
    } else {
        edges.difference(triple_set(before)).union(triple_set(after))
    }
}

/// The compare-and-set condition of an update: entity `id` is stored with
/// version `expected`.
pub open spec fn cas_admits(entities: Map<Id, AnyEntView>, id: Id, expected: u64) -> bool {
    entities.contains_key(id) && entities[id].last_updated() == expected
}

/// Decides the compare-and-set of a write: with no expected version the
/// write goes ahead; else only onto a stored entity of that version.
pub fn cas_allows(current: Option<u64>, expected: Option<u64>) -> (r: bool)
    ensures
        r == match expected {
            None => true,
            Some(v) => current == Some(v),
        },
{
    match expected {
        None => true,
        Some(v) => match current {
            Some(c) => c == v,
            None => false,
        },
    }
}

/// CRUD over entities, with edges kept in step with entity state.
pub trait Transactional: QueryEdge + Sized {
    /// The stored entities by id. Backends written outside the verified
    /// library keep the defaults of these specification functions; for
    /// them the contracts below are not checked.
    open spec fn spec_entities(&self) -> Map<Id, AnyEntView> {
        Map::empty()
    }

    /// There is an id left for a new entity.
    open spec fn spec_has_free_id(&self) -> bool {
        true
    }

    /// The transaction's state is consistent.
    open spec fn well_formed(&self) -> bool {
        true
    }

    /// The stored entity `id`, if there is one.
    fn get(&self, id: Id) -> (r: Result<Option<AnyEnt>, DatabaseError>)
        requires
            self.well_formed(),
        ensures
            r matches Ok(o) ==> (o is Some <==> self.spec_entities().contains_key(id)),
            r matches Ok(Some(e)) ==> e@ == self.spec_entities()[id],
            r matches Err(e) ==> e is Other,
            self.spec_infallible() ==> r is Ok,
    ;

    /// Stores `ent` under a fresh id and writes the edges of its draft.
    fn create<E: EntWithEdges>(&mut self, ent: E) -> (r: Result<Id, DatabaseError>)
        requires
            old(self).well_formed(),
        ensures
            final(self).well_formed(),
            r matches Ok(id) ==> {
                let stored = ent.spec_with(id, ent.spec_last_updated());
                &&& id != 0
                &&& !old(self).spec_entities().contains_key(id)
                &&& final(self).spec_entities() == old(self).spec_entities().insert(id, stored.spec_to_any())
                &&& edge_set(final(self).spec_edge_list()) == edge_set(old(self).spec_edge_list()).union(
                    triple_set(E::EdgeProvider::spec_draft(&stored)),
                )
            },
            r matches Err(e) ==> e is Other || {
                &&& final(self).spec_entities() == old(self).spec_entities()
                &&& edge_set(final(self).spec_edge_list()) == edge_set(old(self).spec_edge_list())
                &&& (e is EntCapacityReached <==> !old(self).spec_has_free_id())
                &&& (e is EntCapacityReached || e is Draft)
            },
            final(self).spec_infallible() == old(self).spec_infallible(),
            old(self).spec_infallible() ==> !(r matches Err(DatabaseError::Other(_))),
            r matches Err(DatabaseError::Draft(_)) ==> !old(self).spec_infallible() || exists|id: Id|
                !E::EdgeProvider::spec_draft_accepted(&#[trigger] ent.spec_with(id, ent.spec_last_updated())),
    ;

    /// Removes entity `id` and every edge whose destination is `id`. Edges
    /// whose source is `id` are kept: they belong to the caller to remove.
    fn delete<E: EntWithEdges>(&mut self, id: Id) -> (r: Result<(), DatabaseError>)
        requires
            old(self).well_formed(),
        ensures
            final(self).well_formed(),
            r is Ok ==> final(self).spec_entities() == old(self).spec_entities().remove(id)
                && edge_set(final(self).spec_edge_list()) == edge_set(old(self).spec_edge_list()).filter(
                |t: EdgeTriple| t.2 != id,
            ),
            r matches Err(e) ==> e is Other,
            final(self).spec_infallible() == old(self).spec_infallible(),
            old(self).spec_infallible() ==> r is Ok,
    ;

    /// Adds one edge; adding an edge that is there already changes nothing.
    fn create_edge(&mut self, edge: EdgeValue) -> (r: Result<(), DatabaseError>)
        requires
            old(self).well_formed(),
        ensures
            final(self).well_formed(),
            r is Ok ==> final(self).spec_entities() == old(self).spec_entities() && edge_set(
                final(self).spec_edge_list(),
            ) == edge_set(old(self).spec_edge_list()).insert(edge@),
            r matches Err(e) ==> e is Other,
            final(self).spec_infallible() == old(self).spec_infallible(),
            old(self).spec_infallible() ==> r is Ok,
    ;

    /// Writes `ent` under `id` if entity `id` is stored with version
    /// `expected`; `Ok(false)`, with nothing written, where it is not.
    fn write_if_version(&mut self, id: Id, ent: AnyEnt, expected: u64) -> (r: Result<bool, DatabaseError>)
        requires
            old(self).well_formed(),
            ent@.id() == id,
        ensures
            final(self).well_formed(),
            edge_set(final(self).spec_edge_list()) == edge_set(old(self).spec_edge_list()),
            r matches Ok(w) ==> w == cas_admits(old(self).spec_entities(), id, expected),
            r matches Ok(w) ==> if w {
                final(self).spec_entities() == old(self).spec_entities().insert(id, ent@)
            } else {
                final(self).spec_entities() == old(self).spec_entities()
            },
            r matches Err(e) ==> e is Other,
            final(self).spec_infallible() == old(self).spec_infallible(),
            old(self).spec_infallible() ==> r is Ok,
    ;

    /// Removes one edge; removing an edge that is not there changes nothing.
    fn delete_edge(&mut self, edge: &EdgeValue) -> (r: Result<(), DatabaseError>)
        requires
            old(self).well_formed(),
        ensures
            final(self).well_formed(),
            r is Ok ==> final(self).spec_entities() == old(self).spec_entities() && edge_set(
                final(self).spec_edge_list(),
            ) == edge_set(old(self).spec_edge_list()).remove(edge@),
            r matches Err(e) ==> e is Other,
            final(self).spec_infallible() == old(self).spec_infallible(),
            old(self).spec_infallible() ==> r is Ok,
    ;
}

/// Applies `mutator` to `ent`, advances its version, and writes it if
/// the stored version still equals the version `ent` had: `Ok(false)`,
/// with nothing written, where it does not. A write reconciles the
/// entity's edges from its draft before the mutation to its draft after.
pub fn reconcile_update<S: Transactional, T: EntWithEdges, F: FnOnce(&T) -> T>(txn: &mut S, ent: &mut T, mutator: F) -> (r: Result<
    bool,
    DatabaseError,
>)
    requires
        old(txn).well_formed(),
        mutator.requires((&*old(ent),)),
    ensures
        final(txn).well_formed(),
        r is Ok ==> exists|m: T|
            {
                &&& #[trigger] mutator.ensures((&*old(ent),), m)
                &&& *final(ent) == m.spec_with(m.spec_id(), final(ent).spec_last_updated())
                &&& final(ent).spec_last_updated() > m.spec_last_updated()
            },
        r is Ok ==> final(ent).spec_last_updated() > old(ent).spec_last_updated(),
        r matches Ok(written) ==> {
            let id = final(ent).spec_id();
            &&& written == cas_admits(old(txn).spec_entities(), id, old(ent).spec_last_updated())
            &&& written ==> final(txn).spec_entities() == old(txn).spec_entities().insert(
                id,
                final(ent).spec_to_any(),
            )
            &&& written ==> edge_set(final(txn).spec_edge_list()) == reconciled(
                edge_set(old(txn).spec_edge_list()),
                T::EdgeProvider::spec_draft(&*old(ent)),
                T::EdgeProvider::spec_draft(&*final(ent)),
            )
            &&& !written ==> final(txn).spec_entities() == old(txn).spec_entities()
                && edge_set(final(txn).spec_edge_list()) == edge_set(old(txn).spec_edge_list())
        },
        r matches Err(e) ==> e is Other || {
            &&& final(txn).spec_entities() == old(txn).spec_entities()
            &&& edge_set(final(txn).spec_edge_list()) == edge_set(old(txn).spec_edge_list())
            &&& (e is Mutation || e is Draft)
        },
        final(txn).spec_infallible() == old(txn).spec_infallible(),
        old(txn).spec_infallible() ==> !(r matches Err(DatabaseError::Other(_))),
        r matches Err(DatabaseError::Mutation(_)) ==> mutator.ensures((&*old(ent),), *final(ent)) && (
        final(ent).spec_last_updated() == u64::MAX || old(ent).spec_last_updated() == u64::MAX),
        r matches Err(DatabaseError::Draft(_)) ==> !old(txn).spec_infallible()
            || !T::EdgeProvider::spec_draft_accepted(&*old(ent))
            || !T::EdgeProvider::spec_draft_accepted(&*final(ent)),
{
    let draft0 = T::EdgeProvider::draft(&*ent);
    let expected = ent.last_updated();
    let before = draft0.edges();
    let mutated = mutator(&*ent);
    *ent = mutated;
    match ent.mark_updated_after(expected) {
        Ok(()) => {},
        Err(e) => return Err(DatabaseError::Mutation(e)),
    }
    let draft1 = T::EdgeProvider::draft(&*ent);
    let after = draft1.edges();
    let id = ent.id();
    if same_edges(&before, &after) {
        return txn.write_if_version(id, ent.to_any(), expected);
    }
    let edges0 = match draft0.check(&*txn) {
        Ok(v) => v,
        Err(e) => return Err(DatabaseError::Draft(Box::new(e))),
    };
    let edges1 = match draft1.check(&*txn) {
        Ok(v) => v,
        Err(e) => return Err(DatabaseError::Draft(Box::new(e))),
    };
    let written = match txn.write_if_version(id, ent.to_any(), expected) {
        Ok(w) => w,
        Err(e) => return Err(e),
    };
    if written {
        match delete_all(txn, &edges0) {
            Ok(()) => {},
            Err(e) => return Err(e),
        }
        match create_all(txn, &edges1) {
            Ok(()) => {},
            Err(e) => return Err(e),
        }
    }
    Ok(written)
}

/// Removes each edge of `es` through `txn`.
pub fn delete_all<S: Transactional>(txn: &mut S, es: &Vec<EdgeValue>) -> (r: Result<(), DatabaseError>)
    requires
        old(txn).well_formed(),
    ensures
        final(txn).well_formed(),
        r is Ok ==> final(txn).spec_entities() == old(txn).spec_entities() && edge_set(final(txn).spec_edge_list())
            == edge_set(old(txn).spec_edge_list()).difference(triple_set(triples(es@))),
        r matches Err(e) ==> e is Other,
        final(txn).spec_infallible() == old(txn).spec_infallible(),
        old(txn).spec_infallible() ==> r is Ok,
        es@.len() == 0 ==> r is Ok,
{
    let ghost start = edge_set(txn.spec_edge_list());
    let mut i: usize = 0;
    while i < es.len()
        invariant
            i <= es@.len(),
            txn.well_formed(),
            txn.spec_entities() == old(txn).spec_entities(),
            txn.spec_infallible() == old(txn).spec_infallible(),
            start == edge_set(old(txn).spec_edge_list()),
            edge_set(txn.spec_edge_list()) == start.difference(triple_set(triples(es@.subrange(0, i as int)))),
        decreases es@.len() - i,
    {
        match txn.delete_edge(&es[i]) {
            Ok(()) => {},
            Err(e) => return Err(e),
        }
        proof {
            assert(triples(es@.subrange(0, i + 1)) =~= triples(es@.subrange(0, i as int)).push(es@[i as int]@));
            lemma_triple_set_push(triples(es@.subrange(0, i as int)), es@[i as int]@);
        }
        assert(edge_set(txn.spec_edge_list()) =~= start.difference(triple_set(triples(es@.subrange(0, i + 1)))));
        i += 1;
    }
    assert(es@.subrange(0, i as int) =~= es@);
    Ok(())
}

/// Adds each edge of `es` through `txn`.
pub fn create_all<S: Transactional>(txn: &mut S, es: &Vec<EdgeValue>) -> (r: Result<(), DatabaseError>)
    requires
        old(txn).well_formed(),
    ensures
        final(txn).well_formed(),
        r is Ok ==> final(txn).spec_entities() == old(txn).spec_entities() && edge_set(final(txn).spec_edge_list())
            == edge_set(old(txn).spec_edge_list()).union(triple_set(triples(es@))),
        r matches Err(e) ==> e is Other,
        final(txn).spec_infallible() == old(txn).spec_infallible(),
        old(txn).spec_infallible() ==> r is Ok,
        es@.len() == 0 ==> r is Ok,
{
    let ghost start = edge_set(txn.spec_edge_list());
    let mut i: usize = 0;
    while i < es.len()
        invariant
            i <= es@.len(),
            txn.well_formed(),
            txn.spec_entities() == old(txn).spec_entities(),
            txn.spec_infallible() == old(txn).spec_infallible(),
            start == edge_set(old(txn).spec_edge_list()),
            edge_set(txn.spec_edge_list()) == start.union(triple_set(triples(es@.subrange(0, i as int)))),
        decreases es@.len() - i,
    {
        match txn.create_edge(copy_edge_value(&es[i])) {
            Ok(()) => {},
            Err(e) => return Err(e),
        }
        proof {
            assert(triples(es@.subrange(0, i + 1)) =~= triples(es@.subrange(0, i as int)).push(es@[i as int]@));
            lemma_triple_set_push(triples(es@.subrange(0, i as int)), es@[i as int]@);
        }
        assert(edge_set(txn.spec_edge_list()) =~= start.union(triple_set(triples(es@.subrange(0, i + 1)))));
        i += 1;
    }
    assert(es@.subrange(0, i as int) =~= es@);
    Ok(())
}

/// Validates the draft of `ent` against `txn` and writes its edges there.
pub fn setup_edges<E: EntWithEdges, T: Transactional>(ent: &E, txn: &mut T) -> (r: Result<(), DraftError>)
    requires
        old(txn).well_formed(),
    ensures
        final(txn).well_formed(),
        r is Ok ==> final(txn).spec_entities() == old(txn).spec_entities() && edge_set(
            final(txn).spec_edge_list(),
        ) == edge_set(old(txn).spec_edge_list()).union(triple_set(E::EdgeProvider::spec_draft(ent))),
        final(txn).spec_infallible() == old(txn).spec_infallible(),
        r matches Err(e) ==> if e is Database {
            !old(txn).spec_infallible()
        } else {
            &&& !E::EdgeProvider::spec_draft_accepted(ent)
            &&& final(txn).spec_entities() == old(txn).spec_entities()
            &&& edge_set(final(txn).spec_edge_list()) == edge_set(old(txn).spec_edge_list())
        },
{
    let draft = E::EdgeProvider::draft(ent);
    let edges = match draft.check(&*txn) {
        Ok(v) => v,
        Err(e) => return Err(e),
    };
    match create_all(txn, &edges) {
        Ok(()) => Ok(()),
        Err(e) => Err(DraftError::Database(e)),
    }
}

/// The committed state of an in-memory store.
pub struct MemStore {
    entities: HashMap<u64, AnyEnt>,
    edges: Vec<Edge>,
    next_id: u64,
}

/// A transaction on a `MemStore`: its writes reach the store on `commit`,
/// and are dropped with it otherwise.
pub struct MemTxn {
    entities: HashMap<u64, AnyEnt>,
    edges: Vec<Edge>,
    next_id: u64,
}

proof fn lemma_triple_set_push(s: Seq<EdgeTriple>, x: EdgeTriple)
    ensures
        triple_set(s.push(x)) == triple_set(s).insert(x),
{
    assert forall|t: EdgeTriple| #[trigger] triple_set(s.push(x)).contains(t) == triple_set(s).insert(x).contains(t) by {
        if s.contains(t) {
            let i = choose|i: int| 0 <= i < s.len() && s[i] == t;
            assert(s.push(x)[i] == t);
        }
        if s.push(x).contains(t) && t != x {
            let i = choose|i: int| 0 <= i < s.len() + 1 && s.push(x)[i] == t;
            assert(s[i] == t);
        }
        if t == x {
            assert(s.push(x)[s.len() as int] == x);
        }
    }
    assert(triple_set(s.push(x)) =~= triple_set(s).insert(x));
}

/// No two entries of `s` are the same edge.
pub open spec fn distinct_edges(s: Seq<Edge>) -> bool {
    forall|i: int, j: int| 0 <= i < j < s.len() ==> s[i]@ != s[j]@
}

/// The views of a map of registry values.
pub open spec fn ent_views(m: Map<u64, AnyEnt>) -> Map<Id, AnyEntView> {
    m.map_values(|a: AnyEnt| a@)
}

/// A copy of a list of edges.
fn copy_edges(v: &Vec<Edge>) -> (r: Vec<Edge>)
    ensures
        r@.len() == v@.len(),
        forall|i: int| 0 <= i < v@.len() ==> r@[i]@ == v@[i]@,
{
    let mut r: Vec<Edge> = Vec::new();
    let mut i: usize = 0;
    while i < v.len()
        invariant
            i <= v@.len(),
            r@.len() == i,
            forall|j: int| 0 <= j < i ==> r@[j]@ == v@[j]@,
        decreases v@.len() - i,
    {
        r.push(copy_edge(&v[i]));
        i += 1;
    }
    r
}

impl MemStore {
    /// The state is well formed: edges are distinct, every stored entity
    /// carries its own id, and ids below `next_id` are the only ones used.
    pub closed spec fn wf(&self) -> bool {
        &&& distinct_edges(self.edges@)
        &&& 1 <= self.next_id
        &&& forall|k: u64|
            #[trigger] self.entities@.contains_key(k) ==> 1 <= k < self.next_id && self.entities@[k]@.id()
                == k
    }

    /// The stored entities by id.
    pub closed spec fn spec_entities(&self) -> Map<Id, AnyEntView> {
        ent_views(self.entities@)
    }

    /// The stored edges.
    pub closed spec fn spec_edges(&self) -> Set<EdgeTriple> {
        edge_set(self.edges@)
    }

    /// An empty store.
    pub fn new() -> (r: Self)
        ensures
            r.wf(),
            r.spec_entities() == Map::<Id, AnyEntView>::empty(),
            r.spec_edges() == Set::<EdgeTriple>::empty(),
    {
        let r = MemStore { entities: HashMap::new(), edges: Vec::new(), next_id: 1 };
        assert(r.spec_entities() =~= Map::<Id, AnyEntView>::empty());
        assert(r.spec_edges() =~= Set::<EdgeTriple>::empty());
        r
    }

    /// Begins a transaction over the current state.
    pub fn write_txn(&self) -> (r: MemTxn)
        requires
            self.wf(),
        ensures
            r.well_formed(),
            r.spec_entities() == self.spec_entities(),
            edge_set(r.spec_edge_list()) == self.spec_edges(),
    {
        let edges = copy_edges(&self.edges);
        let r = MemTxn { entities: self.entities.clone(), edges, next_id: self.next_id };
        assert(edge_set(r.edges@) =~= edge_set(self.edges@)) by {
            assert forall|t: EdgeTriple| edge_set(self.edges@).contains(t) implies edge_set(r.edges@).contains(t) by {
                let i = choose|i: int| 0 <= i < self.edges@.len() && self.edges@[i]@ == t;
                assert(r.edges@[i]@ == t);
            }
            assert forall|t: EdgeTriple| edge_set(r.edges@).contains(t) implies edge_set(self.edges@).contains(t) by {
                let i = choose|i: int| 0 <= i < r.edges@.len() && r.edges@[i]@ == t;
                assert(self.edges@[i]@ == t);
            }
        }
        r
    }
}

impl MemTxn {
    /// The state is well formed (see `MemStore::wf`).
    pub closed spec fn wf(&self) -> bool {
        &&& distinct_edges(self.edges@)
        &&& 1 <= self.next_id
        &&& forall|k: u64|
            #[trigger] self.entities@.contains_key(k) ==> 1 <= k < self.next_id && self.entities@[k]@.id()
                == k
    }

    /// Makes the transaction's writes the store's state.
    pub fn commit(self, store: &mut MemStore) -> (r: Result<(), DatabaseError>)
        requires
            self.well_formed(),
        ensures
            r is Ok,
            final(store).wf(),
            final(store).spec_entities() == self.spec_entities(),
            final(store).spec_edges() == edge_set(self.spec_edge_list()),
    {
        store.entities = self.entities;
        store.edges = self.edges;
        store.next_id = self.next_id;
        Ok(())
    }

    /// The position of edge `t` in the list, if it is there.
    fn find_edge(&self, source: Id, sort_key: &[u8], dest: Id) -> (r: Option<usize>)
        ensures
            match r {
                None => !edge_set(self.edges@).contains((source, sort_key@, dest)),
                Some(i) => i < self.edges@.len() && self.edges@[i as int]@ == (source, sort_key@, dest),
            },
    {
        let mut i: usize = 0;
        while i < self.edges.len()
            invariant
                i <= self.edges@.len(),
                forall|j: int| 0 <= j < i ==> self.edges@[j]@ != (source, sort_key@, dest),
            decreases self.edges@.len() - i,
        {
            let e = &self.edges[i];
            if e.source == source && e.dest == dest && bytes_eq(e.sort_key.as_slice(), sort_key) {
                return Some(i);
            }
            i += 1;
        }
        None
    }

    /// Adds edge `e` unless it is there.
    fn add_edge(&mut self, e: &EdgeValue)
        requires
            old(self).wf(),
        ensures
            final(self).wf(),
            final(self).entities == old(self).entities,
            final(self).next_id == old(self).next_id,
            edge_set(final(self).edges@) == edge_set(old(self).edges@).insert(e@),
    {
        match self.find_edge(e.source, e.sort_key.as_slice(), e.dest) {
            Some(_) => {
                assert(edge_set(self.edges@) =~= edge_set(self.edges@).insert(e@));
            },
            None => {
                let ghost before = self.edges@;
                let v = copy_edge_value(e);
                self.edges.push(Edge::new(v.source, v.sort_key, v.dest));
                assert(self.edges@[before.len() as int]@ == e@);
                assert forall|t: EdgeTriple| #[trigger] edge_set(self.edges@).contains(t) == edge_set(before).insert(e@).contains(t) by {
                    if edge_set(before).contains(t) {
                        let i = choose|i: int| 0 <= i < before.len() && before[i]@ == t;
                        assert(self.edges@[i] == before[i]);
                    }
                    if edge_set(self.edges@).contains(t) && t != e@ {
                        let i = choose|i: int| 0 <= i < self.edges@.len() && self.edges@[i]@ == t;
                        assert(self.edges@[i] == before[i]);
                    }
                }
                assert(edge_set(self.edges@) =~= edge_set(before).insert(e@));
            },
        }
    }

    /// Removes edge `e` if it is there.
    fn remove_edge(&mut self, e: &EdgeValue)
        requires
            old(self).wf(),
        ensures
            final(self).wf(),
            final(self).entities == old(self).entities,
            final(self).next_id == old(self).next_id,
            edge_set(final(self).edges@) == edge_set(old(self).edges@).remove(e@),
    {
        match self.find_edge(e.source, e.sort_key.as_slice(), e.dest) {
            None => {
                assert(edge_set(self.edges@) =~= edge_set(self.edges@).remove(e@));
            },
            Some(i) => {
                let ghost before = self.edges@;
                self.edges.remove(i);
                assert forall|t: EdgeTriple| #[trigger] edge_set(self.edges@).contains(t) == edge_set(before).remove(e@).contains(t) by {
                    if edge_set(before).contains(t) && t != e@ {
                        let j = choose|j: int| 0 <= j < before.len() && before[j]@ == t;
                        if j < i {
                            assert(self.edges@[j] == before[j]);
                        } else {
                            assert(j != i);
                            assert(self.edges@[j - 1] == before[j]);
                        }
                    }
                    if edge_set(self.edges@).contains(t) {
                        let j = choose|j: int| 0 <= j < self.edges@.len() && self.edges@[j]@ == t;
                        if j < i {
                            assert(self.edges@[j] == before[j]);
                        } else {
                            assert(self.edges@[j] == before[j + 1]);
                        }
                    }
                }
                assert(edge_set(self.edges@) =~= edge_set(before).remove(e@));
            },
        }
    }

    /// Removes every edge whose destination is `id`.
    fn sweep_dest(&mut self, id: Id)
        requires
            old(self).wf(),
        ensures
            final(self).wf(),
            final(self).entities == old(self).entities,
            final(self).next_id == old(self).next_id,
            edge_set(final(self).edges@) == edge_set(old(self).edges@).filter(|t: EdgeTriple| t.2 != id),
    {
        let ghost before = self.edges@;
        let mut kept: Vec<Edge> = Vec::new();
        let mut i: usize = 0;
        while i < self.edges.len()
            invariant
                i <= self.edges@.len(),
                self.edges@ == before,
                distinct_edges(before),
                distinct_edges(kept@),
                forall|k: int| 0 <= k < kept@.len() ==> (#[trigger] kept@[k])@.2 != id && exists|j: int|
                    0 <= j < i && before[j]@ == kept@[k]@,
                forall|j: int| 0 <= j < i && (#[trigger] before[j])@.2 != id ==> exists|k: int|
                    0 <= k < kept@.len() && kept@[k]@ == before[j]@,
            decreases self.edges@.len() - i,
        {
            if self.edges[i].dest != id {
                let ghost old_kept = kept@;
                kept.push(copy_edge(&self.edges[i]));
                assert forall|a: int, b: int| 0 <= a < b < kept@.len() implies kept@[a]@ != kept@[b]@ by {
                    if b == kept@.len() - 1 {
                        let j = choose|j: int| 0 <= j < i && before[j]@ == old_kept[a]@;
                        assert(old_kept[a] == kept@[a]);
                    } else {
                        assert(old_kept[a] == kept@[a] && old_kept[b] == kept@[b]);
                    }
                }
                assert forall|k: int| 0 <= k < kept@.len() implies (#[trigger] kept@[k])@.2 != id && exists|j: int|
                    0 <= j < i + 1 && before[j]@ == kept@[k]@ by {
                    if k < old_kept.len() {
                        assert(old_kept[k] == kept@[k]);
                        let j = choose|j: int| 0 <= j < i && before[j]@ == old_kept[k]@;
                        assert(before[j]@ == kept@[k]@);
                    } else {
                        assert(before[i as int]@ == kept@[k]@);
                    }
                }
                assert forall|j: int| 0 <= j < i + 1 && (#[trigger] before[j])@.2 != id implies exists|k: int|
                    0 <= k < kept@.len() && kept@[k]@ == before[j]@ by {
                    if j < i {
                        let k = choose|k: int| 0 <= k < old_kept.len() && old_kept[k]@ == before[j]@;
                        assert(kept@[k] == old_kept[k]);
                    } else {
                        assert(kept@[kept@.len() - 1]@ == before[j]@);
                    }
                }
            }
            i += 1;
        }
        self.edges = kept;
        assert forall|t: EdgeTriple| #[trigger] edge_set(self.edges@).contains(t) == edge_set(before).filter(|t: EdgeTriple| t.2 != id).contains(t) by {
            if edge_set(before).contains(t) && t.2 != id {
                let j = choose|j: int| 0 <= j < before.len() && before[j]@ == t;
                assert(before[j]@.2 != id);
            }
        }
        assert(edge_set(self.edges@) =~= edge_set(before).filter(|t: EdgeTriple| t.2 != id));
    }

    /// Adds each edge of `es`.
    fn add_edges(&mut self, es: &Vec<EdgeValue>)
        requires
            old(self).wf(),
        ensures
            final(self).wf(),
            final(self).entities == old(self).entities,
            final(self).next_id == old(self).next_id,
            edge_set(final(self).edges@) == edge_set(old(self).edges@).union(triple_set(triples(es@))),
    {
        let ghost start = edge_set(self.edges@);
        let mut i: usize = 0;
        while i < es.len()
            invariant
                i <= es@.len(),
                self.wf(),
                self.entities == old(self).entities,
                self.next_id == old(self).next_id,
                edge_set(self.edges@) == start.union(triple_set(triples(es@.subrange(0, i as int)))),
            decreases es@.len() - i,
        {
            self.add_edge(&es[i]);
            proof {
                assert(triples(es@.subrange(0, i + 1)) =~= triples(es@.subrange(0, i as int)).push(es@[i as int]@));
                lemma_triple_set_push(triples(es@.subrange(0, i as int)), es@[i as int]@);
            }
            assert(edge_set(self.edges@) =~= start.union(triple_set(triples(es@.subrange(0, i + 1)))));
            i += 1;
        }
        assert(es@.subrange(0, i as int) =~= es@);
    }

    /// Writes `value` under `id` if the stored version is `expected`.
    fn write_if_current(&mut self, id: Id, value: AnyEnt, expected: u64) -> (written: bool)
        requires
            old(self).wf(),
            value@.id() == id,
        ensures
            final(self).wf(),
            final(self).edges == old(self).edges,
            final(self).next_id == old(self).next_id,
            written == (ent_views(old(self).entities@).contains_key(id) && ent_views(old(self).entities@)[id].last_updated()
                == expected),
            written ==> ent_views(final(self).entities@) == ent_views(old(self).entities@).insert(id, value@),
            !written ==> final(self).entities == old(self).entities,
    {
        let current = match self.entities.get(&id) {
            None => return false,
            Some(e) => e.last_updated(),
        };
        if current != expected {
            return false;
        }
        self.entities.insert(id, value);
        assert(ent_views(self.entities@) =~= ent_views(old(self).entities@).insert(id, value@));
        true
    }
}

impl MemTxn {
    /// Applies `mutator` to `ent`, advances its version, and writes it if
    /// the stored version still equals the version `ent` had: `Ok(false)`,
    /// with nothing written, where it does not. A write reconciles the
    /// entity's edges from its draft before the mutation to its draft after.
    pub fn update<T: EntWithEdges, F: FnOnce(&T) -> T>(&mut self, ent: &mut T, mutator: F) -> (r: Result<
        bool,
        DatabaseError,
    >)
        requires
            old(self).well_formed(),
            mutator.requires((&*old(ent),)),
        ensures
            final(self).well_formed(),
            r is Ok ==> exists|m: T|
                {
                    &&& #[trigger] mutator.ensures((&*old(ent),), m)
                    &&& *final(ent) == m.spec_with(m.spec_id(), final(ent).spec_last_updated())
                    &&& final(ent).spec_last_updated() > m.spec_last_updated()
                },
            r is Ok ==> final(ent).spec_last_updated() > old(ent).spec_last_updated(),
            r matches Ok(written) ==> {
                let id = final(ent).spec_id();
                &&& written == cas_admits(old(self).spec_entities(), id, old(ent).spec_last_updated())
                &&& written ==> final(self).spec_entities() == old(self).spec_entities().insert(
                    id,
                    final(ent).spec_to_any(),
                )
                &&& written ==> edge_set(final(self).spec_edge_list()) == reconciled(
                    edge_set(old(self).spec_edge_list()),
                    T::EdgeProvider::spec_draft(&*old(ent)),
                    T::EdgeProvider::spec_draft(&*final(ent)),
                )
                &&& !written ==> final(self).spec_entities() == old(self).spec_entities()
                    && edge_set(final(self).spec_edge_list()) == edge_set(old(self).spec_edge_list())
            },
            r matches Err(e) ==> e is Other || {
                &&& final(self).spec_entities() == old(self).spec_entities()
                &&& edge_set(final(self).spec_edge_list()) == edge_set(old(self).spec_edge_list())
                &&& (e is Mutation || e is Draft)
            },
            !(r matches Err(DatabaseError::Other(_))),
            r matches Err(DatabaseError::Mutation(_)) ==> mutator.ensures((&*old(ent),), *final(ent)) && (
            final(ent).spec_last_updated() == u64::MAX || old(ent).spec_last_updated() == u64::MAX),
            r matches Err(DatabaseError::Draft(_)) ==> !T::EdgeProvider::spec_draft_accepted(&*old(ent))
                || !T::EdgeProvider::spec_draft_accepted(&*final(ent)),
    {
        reconcile_update(self, ent, mutator)
    }
}

impl QueryEdge for MemTxn {
    closed spec fn spec_edge_list(&self) -> Seq<Edge> {
        self.edges@
    }

    open spec fn spec_infallible(&self) -> bool {
        true
    }

    fn find_edges(&self, source: Id, query: EdgeQuery) -> (r: Result<Vec<Edge>, DatabaseError>) {
        Ok(select_edges(&self.edges, source, &query))
    }
}

impl Transactional for MemTxn {
    closed spec fn spec_entities(&self) -> Map<Id, AnyEntView> {
        ent_views(self.entities@)
    }

    closed spec fn spec_has_free_id(&self) -> bool {
        self.next_id < u64::MAX
    }

    closed spec fn well_formed(&self) -> bool {
        self.wf()
    }

    fn get(&self, id: Id) -> (r: Result<Option<AnyEnt>, DatabaseError>) {
        match self.entities.get(&id) {
            None => Ok(None),
            Some(e) => Ok(Some(e.duplicate())),
        }
    }

    fn create<E: EntWithEdges>(&mut self, ent: E) -> (r: Result<Id, DatabaseError>) {
        if self.next_id == u64::MAX {
            return Err(DatabaseError::EntCapacityReached);
        }
        let id = self.next_id;
        let mut ent = ent;
        ent.set_id(id);
        let draft = E::EdgeProvider::draft(&ent);
        let edges = match draft.check(&*self) {
            Ok(v) => v,
            Err(e) => return Err(DatabaseError::Draft(Box::new(e))),
        };
        let value = ent.to_any();
        self.next_id = id + 1;
        self.entities.insert(id, value);
        assert(ent_views(self.entities@) =~= ent_views(old(self).entities@).insert(id, value@));
        self.add_edges(&edges);
        Ok(id)
    }

    fn delete<E: EntWithEdges>(&mut self, id: Id) -> (r: Result<(), DatabaseError>) {
        self.sweep_dest(id);
        self.entities.remove(&id);
        assert(ent_views(self.entities@) =~= ent_views(old(self).entities@).remove(id));
        Ok(())
    }

    fn create_edge(&mut self, edge: EdgeValue) -> (r: Result<(), DatabaseError>) {
        self.add_edge(&edge);
        Ok(())
    }

    fn write_if_version(&mut self, id: Id, ent: AnyEnt, expected: u64) -> (r: Result<bool, DatabaseError>) {
        Ok(self.write_if_current(id, ent, expected))
    }

    fn delete_edge(&mut self, edge: &EdgeValue) -> (r: Result<(), DatabaseError>) {
        self.remove_edge(edge);
        Ok(())
    }

}

/// Compare-and-set: of two snapshots read at one version, once an update
/// through the first has written (an update stores a version later than the
/// one it read), an update through the second is refused.
pub proof fn lemma_stale_snapshot_refused(
    entities: Map<Id, AnyEntView>,
    id: Id,
    version: u64,
    written: AnyEntView,
)
    requires
        cas_admits(entities, id, version),
        written.last_updated() > version,
    ensures
        !cas_admits(entities.insert(id, written), id, version),
{
}

/// An update that leaves an entity's draft as it was leaves the edges as
/// they were: no edge is removed or written.
pub proof fn lemma_unchanged_draft_keeps_edges<T: EntWithEdges>(edges: Set<EdgeTriple>, before: T, after: T)
    requires
        T::EdgeProvider::spec_draft(&before) == T::EdgeProvider::spec_draft(&after),
    ensures
        reconciled(edges, T::EdgeProvider::spec_draft(&before), T::EdgeProvider::spec_draft(&after)) == edges,
{
}

/// After entity `a` is deleted, no query of any source returns an edge
/// whose destination is `a`.
pub proof fn lemma_deleted_destination_not_found(
    before: Set<EdgeTriple>,
    after: Seq<Edge>,
    a: Id,
    source: Id,
    query: EdgeQuery,
    page: Seq<Edge>,
)
    requires
        edge_set(after) == before.filter(|t: EdgeTriple| t.2 != a),
        is_page(after, source, query, page),
    ensures
        forall|i: int| 0 <= i < page.len() ==> (#[trigger] page[i]).dest != a,
{
    assert forall|i: int| 0 <= i < page.len() implies (#[trigger] page[i]).dest != a by {
        let j = choose|j: int| 0 <= j < after.len() && after[j]@ == page[i]@;
        assert(edge_set(after).contains(after[j]@));
    }
}

} // verus!
