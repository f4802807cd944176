//! Entities: identity, versions, and the registry of record shapes that a
//! store keeps.
use vstd::prelude::*;

use crate::records::{Post, PostView, Tag, TestEntity, User, UserWithUniqueEmail};
use crate::{EntMutationError, Id};

verus! {

/// A stored record: an id, a version that advances on every mutation, and
/// fields of its own.
pub trait Ent: Sized {
    /// The entity's id (`0` before it is first stored).
    spec fn spec_id(&self) -> Id;

    /// The entity's version.
    spec fn spec_last_updated(&self) -> u64;

    /// The entity with its id and version replaced, all else kept.
    spec fn spec_with(&self, id: Id, version: u64) -> Self;

    /// The entity as a value of the registry.
    spec fn spec_to_any(&self) -> AnyEntView;

    /// `a` holds an entity of this shape.
    spec fn spec_is(a: AnyEntView) -> bool;

    fn id(&self) -> (r: Id)
        ensures
            r == self.spec_id(),
    ;

    fn set_id(&mut self, id: Id)
        ensures
            *final(self) == old(self).spec_with(id, old(self).spec_last_updated()),
            final(self).spec_id() == id,
            final(self).spec_last_updated() == old(self).spec_last_updated(),
    ;

    fn last_updated(&self) -> (r: u64)
        ensures
            r == self.spec_last_updated(),
    ;

    /// Advances the version; fails only where it cannot advance.
    fn mark_updated(&mut self) -> (r: Result<(), EntMutationError>)
        ensures
            r is Ok ==> *final(self) == old(self).spec_with(
                old(self).spec_id(),
                final(self).spec_last_updated(),
            ) && final(self).spec_last_updated() > old(self).spec_last_updated()
                && final(self).spec_id() == old(self).spec_id(),
            r is Err ==> *final(self) == *old(self) && old(self).spec_last_updated() == u64::MAX,
            old(self).spec_last_updated() < u64::MAX ==> r is Ok,
    ;

    /// Advances the version past both its own and `floor`; fails only
    /// where no version lies past both.
    fn mark_updated_after(&mut self, floor: u64) -> (r: Result<(), EntMutationError>)
        ensures
            r is Ok ==> *final(self) == old(self).spec_with(
                old(self).spec_id(),
                final(self).spec_last_updated(),
            ) && final(self).spec_last_updated() > old(self).spec_last_updated()
                && final(self).spec_last_updated() > floor && final(self).spec_id() == old(self).spec_id(),
            r is Err ==> *final(self) == *old(self) && (old(self).spec_last_updated() == u64::MAX
                || floor == u64::MAX),
            old(self).spec_last_updated() < u64::MAX && floor < u64::MAX ==> r is Ok,
    ;

    /// A copy of the entity.
    fn duplicate(&self) -> (r: Self)
        ensures
            r.spec_to_any() == self.spec_to_any(),
            r.spec_id() == self.spec_id(),
            r.spec_last_updated() == self.spec_last_updated(),
    ;

    /// The entity as a value of the registry.
    fn to_any(&self) -> (r: AnyEnt)
        ensures
            r@ == self.spec_to_any(),
            Self::spec_is(r@),
            r@.id() == self.spec_id(),
            r@.last_updated() == self.spec_last_updated(),
    ;

    /// The entity that `a` holds, if it is of this shape.
    fn from_any(a: &AnyEnt) -> (r: Option<Self>)
        ensures
            r is Some <==> Self::spec_is(a@),
            r matches Some(e) ==> e.spec_to_any() == a@,
    ;
}

/// The registry of record shapes that a store keeps.
#[derive(Debug, Clone)]
pub enum AnyEnt {
    TestEntity(TestEntity),
    User(User),
    UserWithUniqueEmail(UserWithUniqueEmail),
    Tag(Tag),
    Post(Post),
}

/// What an `AnyEnt` holds, as plain values.
pub enum AnyEntView {
    TestEntity(TestEntity),
    User(User),
    UserWithUniqueEmail(UserWithUniqueEmail),
    Tag(Tag),
    Post(PostView),
}

impl View for AnyEnt {
    type V = AnyEntView;

    open spec fn view(&self) -> AnyEntView {
        match self {
            AnyEnt::TestEntity(e) => AnyEntView::TestEntity(*e),
            AnyEnt::User(e) => AnyEntView::User(*e),
            AnyEnt::UserWithUniqueEmail(e) => AnyEntView::UserWithUniqueEmail(*e),
            AnyEnt::Tag(e) => AnyEntView::Tag(*e),
            AnyEnt::Post(e) => AnyEntView::Post(e@),
        }
    }
}

impl AnyEntView {
    /// The id of the entity held.
    pub open spec fn id(self) -> Id {
        match self {
            AnyEntView::TestEntity(e) => e.id,
            AnyEntView::User(e) => e.id,
            AnyEntView::UserWithUniqueEmail(e) => e.id,
            AnyEntView::Tag(e) => e.id,
            AnyEntView::Post(e) => e.id,
        }
    }

    /// The version of the entity held.
    pub open spec fn last_updated(self) -> u64 {
        match self {
            AnyEntView::TestEntity(e) => e.last_updated,
            AnyEntView::User(e) => e.last_updated,
            AnyEntView::UserWithUniqueEmail(e) => e.last_updated,
            AnyEntView::Tag(e) => e.last_updated,
            AnyEntView::Post(e) => e.last_updated,
        }
    }

    /// The entity held, with its id and version replaced.
    pub open spec fn with(self, id: Id, version: u64) -> AnyEntView {
        match self {
            AnyEntView::TestEntity(e) => AnyEntView::TestEntity(e.spec_with(id, version)),
            AnyEntView::User(e) => AnyEntView::User(e.spec_with(id, version)),
            AnyEntView::UserWithUniqueEmail(e) => AnyEntView::UserWithUniqueEmail(e.spec_with(id, version)),
            AnyEntView::Tag(e) => AnyEntView::Tag(e.spec_with(id, version)),
            AnyEntView::Post(e) => AnyEntView::Post(PostView { id, last_updated: version, ..e }),
        }
    }
}

impl AnyEntView {
    /// The name of the record shape held, as stored beside its payload.
    pub open spec fn type_tag(self) -> Seq<char> {
        match self {
            AnyEntView::TestEntity(_) => "TestEntity"@,
            AnyEntView::User(_) => "User"@,
            AnyEntView::UserWithUniqueEmail(_) => "UserWithUniqueEmail"@,
            AnyEntView::Tag(_) => "Tag"@,
            AnyEntView::Post(_) => "Post"@,
        }
    }
}

impl AnyEnt {
    /// The name of the record shape held.
    pub fn typetag_name(&self) -> (r: &'static str)
        ensures
            r@ == self@.type_tag(),
    {
        match self {
            AnyEnt::TestEntity(_) => "TestEntity",
            AnyEnt::User(_) => "User",
            AnyEnt::UserWithUniqueEmail(_) => "UserWithUniqueEmail",
            AnyEnt::Tag(_) => "Tag",
            AnyEnt::Post(_) => "Post",
        }
    }
}

impl Ent for AnyEnt {
    open spec fn spec_id(&self) -> Id {
        self@.id()
    }

    open spec fn spec_last_updated(&self) -> u64 {
        self@.last_updated()
    }

    open spec fn spec_with(&self, id: Id, version: u64) -> AnyEnt {
        match self {
            AnyEnt::TestEntity(e) => AnyEnt::TestEntity(e.spec_with(id, version)),
            AnyEnt::User(e) => AnyEnt::User(e.spec_with(id, version)),
            AnyEnt::UserWithUniqueEmail(e) => AnyEnt::UserWithUniqueEmail(e.spec_with(id, version)),
            AnyEnt::Tag(e) => AnyEnt::Tag(e.spec_with(id, version)),
            AnyEnt::Post(e) => AnyEnt::Post(e.spec_with(id, version)),
        }
    }

    open spec fn spec_to_any(&self) -> AnyEntView {
        self@
    }

    open spec fn spec_is(a: AnyEntView) -> bool {
        true
    }

    fn id(&self) -> (r: Id) {
        match self {
            AnyEnt::TestEntity(e) => e.id(),
            AnyEnt::User(e) => e.id(),
            AnyEnt::UserWithUniqueEmail(e) => e.id(),
            AnyEnt::Tag(e) => e.id(),
            AnyEnt::Post(e) => e.id(),
        }
    }

    fn set_id(&mut self, id: Id) {
        match self {
            AnyEnt::TestEntity(e) => e.set_id(id),
            AnyEnt::User(e) => e.set_id(id),
            AnyEnt::UserWithUniqueEmail(e) => e.set_id(id),
            AnyEnt::Tag(e) => e.set_id(id),
            AnyEnt::Post(e) => e.set_id(id),
        }
    }

    fn last_updated(&self) -> (r: u64) {
        match self {
            AnyEnt::TestEntity(e) => e.last_updated(),
            AnyEnt::User(e) => e.last_updated(),
            AnyEnt::UserWithUniqueEmail(e) => e.last_updated(),
            AnyEnt::Tag(e) => e.last_updated(),
            AnyEnt::Post(e) => e.last_updated(),
        }
    }

    fn mark_updated(&mut self) -> (r: Result<(), EntMutationError>) {
        match self {
            AnyEnt::TestEntity(e) => e.mark_updated(),
            AnyEnt::User(e) => e.mark_updated(),
            AnyEnt::UserWithUniqueEmail(e) => e.mark_updated(),
            AnyEnt::Tag(e) => e.mark_updated(),
            AnyEnt::Post(e) => e.mark_updated(),
        }
    }

    fn mark_updated_after(&mut self, floor: u64) -> (r: Result<(), EntMutationError>) {
        match self {
            AnyEnt::TestEntity(e) => e.mark_updated_after(floor),
            AnyEnt::User(e) => e.mark_updated_after(floor),
            AnyEnt::UserWithUniqueEmail(e) => e.mark_updated_after(floor),
            AnyEnt::Tag(e) => e.mark_updated_after(floor),
            AnyEnt::Post(e) => e.mark_updated_after(floor),
        }
    }

    fn duplicate(&self) -> (r: AnyEnt) {
        match self {
            AnyEnt::TestEntity(e) => AnyEnt::TestEntity(e.duplicate()),
            AnyEnt::User(e) => AnyEnt::User(e.duplicate()),
            AnyEnt::UserWithUniqueEmail(e) => AnyEnt::UserWithUniqueEmail(e.duplicate()),
            AnyEnt::Tag(e) => AnyEnt::Tag(e.duplicate()),
            AnyEnt::Post(e) => AnyEnt::Post(e.duplicate()),
        }
    }

    fn to_any(&self) -> (r: AnyEnt) {
        self.duplicate()
    }

    fn from_any(a: &AnyEnt) -> (r: Option<AnyEnt>) {
        Some(a.duplicate())
    }
}

/// Checked access to the shape of a registry value.
pub trait EntExt: Sized {
    /// The value holds an entity of type `T`.
    fn is<T: Ent>(&self) -> (r: bool);

    /// A copy of the entity of type `T` that the value holds.
    fn as_ent<T: Ent>(&self) -> (r: Option<T>);

    /// The entity of type `T` that the value holds, boxed.
    fn downcast_ent<T: Ent>(self) -> (r: Option<Box<T>>);

    /// The entity of type `T` that the value holds.
    fn into_ent<T: Ent>(self) -> (r: Option<T>);
}

impl EntExt for AnyEnt {
    fn is<T: Ent>(&self) -> (r: bool)
        ensures
            r == T::spec_is(self@),
    {
        T::from_any(self).is_some()
    }

    fn as_ent<T: Ent>(&self) -> (r: Option<T>)
        ensures
            r is Some <==> T::spec_is(self@),
            r matches Some(e) ==> e.spec_to_any() == self@,
    {
        T::from_any(self)
    }

    fn downcast_ent<T: Ent>(self) -> (r: Option<Box<T>>)
        ensures
            r is Some <==> T::spec_is(self@),
            r matches Some(e) ==> e.spec_to_any() == self@,
    {
        match T::from_any(&self) {
            Some(e) => Some(Box::new(e)),
            None => None,
        }
    }

    fn into_ent<T: Ent>(self) -> (r: Option<T>)
        ensures
            r is Some <==> T::spec_is(self@),
            r matches Some(e) ==> e.spec_to_any() == self@,
    {
        T::from_any(&self)
    }
}

/// The version after `old` when the clock reads `now`: the clock where it
/// has moved past `old`, else one more than `old`; none where `old` is the
/// largest version.
pub fn advance_version(old: u64, now: u64) -> (r: Option<u64>)
    ensures
        r == if now > old {
            Some(now)
        } else if old < u64::MAX {
            Some((old + 1) as u64)
        } else {
            None::<u64>
        },
{
    if now > old {
        Some(now)
    } else if old < u64::MAX {
        Some(old + 1)
    } else {
        None
    }
}

/// Relies on `std::time::SystemTime::now`: microseconds since the Unix
/// epoch (zero for a clock set before it). Nothing is known of the value.
#[verifier::external_body]
fn clock_micros() -> (r: u64) {
    std::time::SystemTime::now().duration_since(std::time::UNIX_EPOCH).map(|d| d.as_micros() as u64).unwrap_or(0)
}

/// A version later than `old`, taken from the clock where it has moved on.
pub fn next_version(old: u64) -> (r: Result<u64, EntMutationError>)
    ensures
        r matches Ok(v) ==> v > old,
        r is Err ==> old == u64::MAX,
        old < u64::MAX ==> r is Ok,
{
    match advance_version(old, clock_micros()) {
        Some(v) => Ok(v),
        None => Err(EntMutationError::Other(String::from_str("version counter exhausted"))),
    }
}

} // verus!
