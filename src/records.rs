//! The record shapes of the registry and the edges that their fields call for.
use vstd::prelude::*;

use crate::edge_provider::{triples, DraftError, EdgeDraft, EdgeProvider, EdgeTriple, EdgeValue, EntWithEdges, NullEdgeProvider};
use crate::entity::{next_version, AnyEnt, AnyEntView, Ent};
use crate::query_edge::{EdgeQuery, QueryEdge};
use crate::{EntMutationError, Id};

verus! {

/// A record with a name and a number.
#[derive(Debug, Clone)]
pub struct TestEntity {
    pub name: String,
    pub value: i32,
    pub id: Id,
    pub last_updated: u64,
}

impl TestEntity {
    /// A new record, not yet stored.
    pub fn new(name: String, value: i32) -> (r: Self)
        ensures
            r == (TestEntity { name, value, id: 0, last_updated: 0 }),
    {
        TestEntity { name, value, id: 0, last_updated: 0 }
    }
}

impl Ent for TestEntity {
    open spec fn spec_id(&self) -> Id {
        self.id
    }

    open spec fn spec_last_updated(&self) -> u64 {
        self.last_updated
    }

    open spec fn spec_with(&self, id: Id, version: u64) -> Self {
        TestEntity { id, last_updated: version, ..*self }
    }

    open spec fn spec_to_any(&self) -> AnyEntView {
        AnyEntView::TestEntity(*self)
    }

    open spec fn spec_is(a: AnyEntView) -> bool {
        a is TestEntity
    }

    fn id(&self) -> (r: Id) {
        self.id
    }

    fn set_id(&mut self, id: Id) {
        self.id = id;
    }

    fn last_updated(&self) -> (r: u64) {
        self.last_updated
    }

    fn mark_updated(&mut self) -> (r: Result<(), EntMutationError>) {
        let v = next_version(self.last_updated)?;
        self.last_updated = v;
        Ok(())
    }

    fn mark_updated_after(&mut self, floor: u64) -> (r: Result<(), EntMutationError>) {
        let base = if floor > self.last_updated { floor } else { self.last_updated };
        let v = next_version(base)?;
        self.last_updated = v;
        Ok(())
    }

    fn duplicate(&self) -> (r: Self) {
        TestEntity { name: self.name.clone(), value: self.value, id: self.id, last_updated: self.last_updated }
    }

    fn to_any(&self) -> (r: AnyEnt) {
        AnyEnt::TestEntity(self.duplicate())
    }

    fn from_any(a: &AnyEnt) -> (r: Option<Self>) {
        match a {
            AnyEnt::TestEntity(e) => Some(e.duplicate()),
            _ => None,
        }
    }
}

impl EntWithEdges for TestEntity {
    type EdgeProvider = NullEdgeProvider;
}

/// A user of the system.
#[derive(Debug, Clone)]
pub struct User {
    pub username: String,
    pub email: String,
    pub id: Id,
    pub last_updated: u64,
}

impl User {
    /// A new record, not yet stored.
    pub fn new(username: String, email: String) -> (r: Self)
        ensures
            r == (User { username, email, id: 0, last_updated: 0 }),
    {
        User { username, email, id: 0, last_updated: 0 }
    }
}

impl Ent for User {
    open spec fn spec_id(&self) -> Id {
        self.id
    }

    open spec fn spec_last_updated(&self) -> u64 {
        self.last_updated
    }

    open spec fn spec_with(&self, id: Id, version: u64) -> Self {
        User { id, last_updated: version, ..*self }
    }

    open spec fn spec_to_any(&self) -> AnyEntView {
        AnyEntView::User(*self)
    }

    open spec fn spec_is(a: AnyEntView) -> bool {
        a is User
    }

    fn id(&self) -> (r: Id) {
        self.id
    }

    fn set_id(&mut self, id: Id) {
        self.id = id;
    }

    fn last_updated(&self) -> (r: u64) {
        self.last_updated
    }

    fn mark_updated(&mut self) -> (r: Result<(), EntMutationError>) {
        let v = next_version(self.last_updated)?;
        self.last_updated = v;
        Ok(())
    }

    fn mark_updated_after(&mut self, floor: u64) -> (r: Result<(), EntMutationError>) {
        let base = if floor > self.last_updated { floor } else { self.last_updated };
        let v = next_version(base)?;
        self.last_updated = v;
        Ok(())
    }

    fn duplicate(&self) -> (r: Self) {
        User { username: self.username.clone(), email: self.email.clone(), id: self.id, last_updated: self.last_updated }
    }

    fn to_any(&self) -> (r: AnyEnt) {
        AnyEnt::User(self.duplicate())
    }

    fn from_any(a: &AnyEnt) -> (r: Option<Self>) {
        match a {
            AnyEnt::User(e) => Some(e.duplicate()),
            _ => None,
        }
    }
}

impl EntWithEdges for User {
    type EdgeProvider = NullEdgeProvider;
}

/// A user whose email address is to be unique.
#[derive(Debug, Clone)]
pub struct UserWithUniqueEmail {
    pub username: String,
    pub email: String,
    pub id: Id,
    pub last_updated: u64,
}

impl UserWithUniqueEmail {
    /// A new record, not yet stored.
    pub fn new(username: String, email: String) -> (r: Self)
        ensures
            r == (UserWithUniqueEmail { username, email, id: 0, last_updated: 0 }),
    {
        UserWithUniqueEmail { username, email, id: 0, last_updated: 0 }
    }
}

impl Ent for UserWithUniqueEmail {
    open spec fn spec_id(&self) -> Id {
        self.id
    }

    open spec fn spec_last_updated(&self) -> u64 {
        self.last_updated
    }

    open spec fn spec_with(&self, id: Id, version: u64) -> Self {
        UserWithUniqueEmail { id, last_updated: version, ..*self }
    }

    open spec fn spec_to_any(&self) -> AnyEntView {
        AnyEntView::UserWithUniqueEmail(*self)
    }

    open spec fn spec_is(a: AnyEntView) -> bool {
        a is UserWithUniqueEmail
    }

    fn id(&self) -> (r: Id) {
        self.id
    }

    fn set_id(&mut self, id: Id) {
        self.id = id;
    }

    fn last_updated(&self) -> (r: u64) {
        self.last_updated
    }

    fn mark_updated(&mut self) -> (r: Result<(), EntMutationError>) {
        let v = next_version(self.last_updated)?;
        self.last_updated = v;
        Ok(())
    }

    fn mark_updated_after(&mut self, floor: u64) -> (r: Result<(), EntMutationError>) {
        let base = if floor > self.last_updated { floor } else { self.last_updated };
        let v = next_version(base)?;
        self.last_updated = v;
        Ok(())
    }

    fn duplicate(&self) -> (r: Self) {
        UserWithUniqueEmail { username: self.username.clone(), email: self.email.clone(), id: self.id, last_updated: self.last_updated }
    }

    fn to_any(&self) -> (r: AnyEnt) {
        AnyEnt::UserWithUniqueEmail(self.duplicate())
    }

    fn from_any(a: &AnyEnt) -> (r: Option<Self>) {
        match a {
            AnyEnt::UserWithUniqueEmail(e) => Some(e.duplicate()),
            _ => None,
        }
    }
}

impl EntWithEdges for UserWithUniqueEmail {
    type EdgeProvider = UserWithUniqueEmailEdgeProvider;
}

/// A tag with a display color.
#[derive(Debug, Clone)]
pub struct Tag {
    pub name: String,
    pub color: String,
    pub id: Id,
    pub last_updated: u64,
}

impl Tag {
    /// A new record, not yet stored.
    pub fn new(name: String, color: String) -> (r: Self)
        ensures
            r == (Tag { name, color, id: 0, last_updated: 0 }),
    {
        Tag { name, color, id: 0, last_updated: 0 }
    }
}

impl Ent for Tag {
    open spec fn spec_id(&self) -> Id {
        self.id
    }

    open spec fn spec_last_updated(&self) -> u64 {
        self.last_updated
    }

    open spec fn spec_with(&self, id: Id, version: u64) -> Self {
        Tag { id, last_updated: version, ..*self }
    }

    open spec fn spec_to_any(&self) -> AnyEntView {
        AnyEntView::Tag(*self)
    }

    open spec fn spec_is(a: AnyEntView) -> bool {
        a is Tag
    }

    fn id(&self) -> (r: Id) {
        self.id
    }

    fn set_id(&mut self, id: Id) {
        self.id = id;
    }

    fn last_updated(&self) -> (r: u64) {
        self.last_updated
    }

    fn mark_updated(&mut self) -> (r: Result<(), EntMutationError>) {
        let v = next_version(self.last_updated)?;
        self.last_updated = v;
        Ok(())
    }

    fn mark_updated_after(&mut self, floor: u64) -> (r: Result<(), EntMutationError>) {
        let base = if floor > self.last_updated { floor } else { self.last_updated };
        let v = next_version(base)?;
        self.last_updated = v;
        Ok(())
    }

    fn duplicate(&self) -> (r: Self) {
        Tag { name: self.name.clone(), color: self.color.clone(), id: self.id, last_updated: self.last_updated }
    }

    fn to_any(&self) -> (r: AnyEnt) {
        AnyEnt::Tag(self.duplicate())
    }

    fn from_any(a: &AnyEnt) -> (r: Option<Self>) {
        match a {
            AnyEnt::Tag(e) => Some(e.duplicate()),
            _ => None,
        }
    }
}

impl EntWithEdges for Tag {
    type EdgeProvider = NullEdgeProvider;
}

/// The sort key of the edges that mark an email address as taken.
pub open spec fn unique_email_name() -> Seq<u8> {
    seq![117u8, 110, 105, 113, 117, 101, 95, 101, 109, 97, 105, 108]
}

/// The sort key of the edge from a post to its author.
pub open spec fn author_name() -> Seq<u8> {
    seq![97u8, 117, 116, 104, 111, 114]
}

/// The sort key of the edges from a post to its tags.
pub open spec fn tag_name() -> Seq<u8> {
    seq![116u8, 97, 103]
}

/// The bytes of `unique_email_name()`.
pub fn unique_email_key() -> (r: Vec<u8>)
    ensures
        r@ == unique_email_name(),
{
    let r = vec![117u8, 110, 105, 113, 117, 101, 95, 101, 109, 97, 105, 108];
    assert(r@ =~= unique_email_name());
    r
}

/// The bytes of `author_name()`.
pub fn author_key() -> (r: Vec<u8>)
    ensures
        r@ == author_name(),
{
    let r = vec![97u8, 117, 116, 104, 111, 114];
    assert(r@ =~= author_name());
    r
}

/// The bytes of `tag_name()`.
pub fn tag_key() -> (r: Vec<u8>)
    ensures
        r@ == tag_name(),
{
    let r = vec![116u8, 97, 103];
    assert(r@ =~= tag_name());
    r
}

/// The draft that marks a user's email address as taken: one edge from the
/// global source `0` to the user.
pub struct UniqueEmailDraft {
    pub user_id: Id,
    pub email: String,
}

impl EdgeDraft for UniqueEmailDraft {
    open spec fn spec_edges(&self) -> Seq<EdgeTriple> {
        seq![(0u64, unique_email_name(), self.user_id)]
    }

    /// The edges do not record the address itself, so no existing edge
    /// counts as a conflict.
    open spec fn spec_accepted(&self) -> bool {
        true
    }

    fn edges(&self) -> (r: Vec<EdgeValue>) {
        let r = vec![EdgeValue::new(0, unique_email_key(), self.user_id)];
        assert(triples(r@) =~= self.spec_edges());
        r
    }

    /// Looks up the taken addresses, then yields the marker edge.
    fn check<T: QueryEdge>(self, txn: &T) -> (r: Result<Vec<EdgeValue>, DraftError>)
        ensures
            r is Err ==> !txn.spec_infallible(),
    {
        let key = unique_email_key();
        let names: [&[u8]; 1] = [key.as_slice()];
        match txn.find_edges(0, EdgeQuery::asc(names.as_slice())) {
            Ok(_) => Ok(self.edges()),
            Err(e) => Err(DraftError::Database(e)),
        }
    }
}

/// Provides the unique-email draft of a user.
pub struct UserWithUniqueEmailEdgeProvider;

impl EdgeProvider<UserWithUniqueEmail> for UserWithUniqueEmailEdgeProvider {
    type Draft = UniqueEmailDraft;

    open spec fn spec_draft(ent: &UserWithUniqueEmail) -> Seq<EdgeTriple> {
        seq![(0u64, unique_email_name(), ent.id)]
    }

    open spec fn spec_draft_accepted(ent: &UserWithUniqueEmail) -> bool {
        true
    }

    fn draft(ent: &UserWithUniqueEmail) -> (r: UniqueEmailDraft) {
        UniqueEmailDraft { user_id: ent.id, email: ent.email.clone() }
    }
}

/// A post with an author and tags.
#[derive(Debug, Clone)]
pub struct Post {
    pub title: String,
    pub content: String,
    pub author_id: Id,
    pub tag_ids: Vec<Id>,
    pub id: Id,
    pub last_updated: u64,
}

/// What a `Post` holds, as plain values.
pub struct PostView {
    pub title: String,
    pub content: String,
    pub author_id: Id,
    pub tag_ids: Seq<Id>,
    pub id: Id,
    pub last_updated: u64,
}

impl View for Post {
    type V = PostView;

    open spec fn view(&self) -> PostView {
        PostView {
            title: self.title,
            content: self.content,
            author_id: self.author_id,
            tag_ids: self.tag_ids@,
            id: self.id,
            last_updated: self.last_updated,
        }
    }
}

/// A copy of a list of ids.
pub fn copy_ids(v: &Vec<Id>) -> (r: Vec<Id>)
    ensures
        r@ == v@,
{
    let mut r: Vec<Id> = Vec::new();
    let mut i: usize = 0;
    while i < v.len()
        invariant
            i <= v@.len(),
            r@ == v@.subrange(0, i as int),
        decreases v@.len() - i,
    {
        r.push(v[i]);
        i += 1;
        assert(r@ =~= v@.subrange(0, i as int));
    }
    assert(v@ =~= v@.subrange(0, i as int));
    r
}

impl Post {
    /// A new post, not yet stored.
    pub fn new(title: String, content: String, author_id: Id, tag_ids: Vec<Id>) -> (r: Self)
        ensures
            r@ == (PostView { title, content, author_id, tag_ids: tag_ids@, id: 0, last_updated: 0 }),
    {
        Post { title, content, author_id, tag_ids, id: 0, last_updated: 0 }
    }
}

impl Ent for Post {
    open spec fn spec_id(&self) -> Id {
        self.id
    }

    open spec fn spec_last_updated(&self) -> u64 {
        self.last_updated
    }

    open spec fn spec_with(&self, id: Id, version: u64) -> Self {
        Post { id, last_updated: version, ..*self }
    }

    open spec fn spec_to_any(&self) -> AnyEntView {
        AnyEntView::Post(self@)
    }

    open spec fn spec_is(a: AnyEntView) -> bool {
        a is Post
    }

    fn id(&self) -> (r: Id) {
        self.id
    }

    fn set_id(&mut self, id: Id) {
        self.id = id;
    }

    fn last_updated(&self) -> (r: u64) {
        self.last_updated
    }

    fn mark_updated(&mut self) -> (r: Result<(), EntMutationError>) {
        let v = next_version(self.last_updated)?;
        self.last_updated = v;
        Ok(())
    }

    fn mark_updated_after(&mut self, floor: u64) -> (r: Result<(), EntMutationError>) {
        let base = if floor > self.last_updated { floor } else { self.last_updated };
        let v = next_version(base)?;
        self.last_updated = v;
        Ok(())
    }

    fn duplicate(&self) -> (r: Self) {
        Post {
            title: self.title.clone(),
            content: self.content.clone(),
            author_id: self.author_id,
            tag_ids: copy_ids(&self.tag_ids),
            id: self.id,
            last_updated: self.last_updated,
        }
    }

    fn to_any(&self) -> (r: AnyEnt) {
        AnyEnt::Post(self.duplicate())
    }

    fn from_any(a: &AnyEnt) -> (r: Option<Self>) {
        match a {
            AnyEnt::Post(e) => Some(e.duplicate()),
            _ => None,
        }
    }
}

/// The draft of a post's author edge.
pub struct AuthorEdgeDraft {
    pub post_id: Id,
    pub author_id: Id,
}

impl EdgeDraft for AuthorEdgeDraft {
    open spec fn spec_edges(&self) -> Seq<EdgeTriple> {
        seq![(self.post_id, author_name(), self.author_id)]
    }

    open spec fn spec_accepted(&self) -> bool {
        true
    }

    fn edges(&self) -> (r: Vec<EdgeValue>) {
        let r = vec![EdgeValue::new(self.post_id, author_key(), self.author_id)];
        assert(triples(r@) =~= self.spec_edges());
        r
    }

    fn check<T: QueryEdge>(self, txn: &T) -> (r: Result<Vec<EdgeValue>, DraftError>)
        ensures
            r is Ok,
    {
        Ok(self.edges())
    }
}

/// The edges from a post to each of its tags, in order.
pub open spec fn tag_edges(post_id: Id, tag_ids: Seq<Id>) -> Seq<EdgeTriple> {
    tag_ids.map_values(|t: Id| (post_id, tag_name(), t))
}

/// The draft of a post's tag edges.
pub struct TagsEdgeDraft {
    pub post_id: Id,
    pub tag_ids: Vec<Id>,
}

impl EdgeDraft for TagsEdgeDraft {
    open spec fn spec_edges(&self) -> Seq<EdgeTriple> {
        tag_edges(self.post_id, self.tag_ids@)
    }

    open spec fn spec_accepted(&self) -> bool {
        true
    }

    fn edges(&self) -> (r: Vec<EdgeValue>) {
        let mut r: Vec<EdgeValue> = Vec::new();
        let mut i: usize = 0;
        while i < self.tag_ids.len()
            invariant
                i <= self.tag_ids@.len(),
                triples(r@) == tag_edges(self.post_id, self.tag_ids@.subrange(0, i as int)),
            decreases self.tag_ids@.len() - i,
        {
            let ghost before = r@;
            r.push(EdgeValue::new(self.post_id, tag_key(), self.tag_ids[i]));
            assert(triples(r@) =~= triples(before).push((self.post_id, tag_name(), self.tag_ids@[i as int])));
            assert(tag_edges(self.post_id, self.tag_ids@.subrange(0, i + 1)) =~= tag_edges(
                self.post_id,
                self.tag_ids@.subrange(0, i as int),
            ).push((self.post_id, tag_name(), self.tag_ids@[i as int])));
            i += 1;
        }
        assert(self.tag_ids@.subrange(0, i as int) =~= self.tag_ids@);
        r
    }

    fn check<T: QueryEdge>(self, txn: &T) -> (r: Result<Vec<EdgeValue>, DraftError>)
        ensures
            r is Ok,
    {
        Ok(self.edges())
    }
}

/// Provides a post's author and tag drafts.
pub struct PostEdgeProvider;

impl EdgeProvider<Post> for PostEdgeProvider {
    type Draft = (AuthorEdgeDraft, TagsEdgeDraft);

    open spec fn spec_draft(ent: &Post) -> Seq<EdgeTriple> {
        seq![(ent.id, author_name(), ent.author_id)] + tag_edges(ent.id, ent.tag_ids@)
    }

    open spec fn spec_draft_accepted(ent: &Post) -> bool {
        true
    }

    fn draft(ent: &Post) -> (r: (AuthorEdgeDraft, TagsEdgeDraft)) {
        (
            AuthorEdgeDraft { post_id: ent.id, author_id: ent.author_id },
            TagsEdgeDraft { post_id: ent.id, tag_ids: copy_ids(&ent.tag_ids) },
        )
    }
}

/// A post's draft depends on its id, author and tags alone: changing its
/// title or content changes no edge.
pub proof fn lemma_post_draft_fields(p: Post, q: Post)
    requires
        p.id == q.id,
        p.author_id == q.author_id,
        p.tag_ids@ == q.tag_ids@,
    ensures
        PostEdgeProvider::spec_draft(&p) == PostEdgeProvider::spec_draft(&q),
{
}

impl EntWithEdges for Post {
    type EdgeProvider = PostEdgeProvider;
}

} // verus!
