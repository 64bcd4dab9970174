//! A shared store of items addressed by 64-bit ids, and handles into it.
//!
//! An [`Arena`] answers lookups by id. [`ArenaRc`] shares one arena between
//! any number of owners; [`ArenaRef`] names one item of a shared arena and is
//! checked once, when it is made.

use std::ops::Deref;
use std::rc::Rc;
use vstd::prelude::*;
use vstd::std_specs::convert::FromSpecImpl;

verus! {

/// A store of items, each found under a 64-bit id.
pub trait Arena: Sized {
    type Item;

    /// The items of the store, by id.
    spec fn items(&self) -> Map<u64, Self::Item>;

    /// Looks the id up. An id that the store does not hold gives `None`.
    fn get(&self, idx: &u64) -> (item: Option<&Self::Item>)
        ensures
            self.items().contains_key(*idx) ==> item == Some(&self.items()[*idx]),
            !self.items().contains_key(*idx) ==> item is None,
    ;
}

/// `Rc::clone`: the new pointer shares the allocation of the one it was
/// cloned from, so both point to the same value.
#[verifier::external_body]
pub(crate) fn share<A>(rc: &Rc<A>) -> (other: Rc<A>)
    ensures
        other == *rc,
{
    Rc::clone(rc)
}

/// Shared ownership of a whole arena.
pub struct ArenaRc<A: Arena> {
    inner: Rc<A>,
}

/// One item of a shared arena: an id, and the arena that holds it.
pub struct ArenaRef<A: Arena> {
    idx: u64,
    arena: Rc<A>,
}

impl<A: Arena> ArenaRc<A> {
    /// The arena that the handle shares.
    pub closed spec fn view(&self) -> A {
        *self.inner
    }

    /// The handle that shares the arena `a`.
    pub closed spec fn sharing(a: A) -> ArenaRc<A> {
        ArenaRc { inner: Rc::new(a) }
    }

    /// A handle of `sharing(a)` shares `a`.
    pub broadcast proof fn lemma_sharing_view(a: A)
        ensures
            #[trigger] Self::sharing(a)@ == a,
    {
    }

    /// A reference to the item under `idx`, or `None` where the arena has no
    /// such item.
    pub fn get_ref(&self, idx: &u64) -> (r: Option<ArenaRef<A>>)
        ensures
            self@.items().contains_key(*idx) <==> r is Some,
            r matches Some(x) ==> x.idx() == *idx && x.arena_view() == self@,
    {
        ArenaRef::from_rc(share(&self.inner), idx)
    }

}

impl<A: Arena> ArenaRc<A> {
    /// Another owner of the arena.
    pub fn share(&self) -> (rc: Rc<A>)
        ensures
            *rc == self@,
    {
        share(&self.inner)
    }
}

impl<A: Arena> From<A> for ArenaRc<A> {
    /// Takes ownership of an arena and makes it shareable.
    fn from(a: A) -> (rc: ArenaRc<A>) {
        ArenaRc { inner: Rc::new(a) }
    }
}

impl<A: Arena> FromSpecImpl<A> for ArenaRc<A> {
    open spec fn obeys_from_spec() -> bool {
        true
    }

    open spec fn from_spec(a: A) -> Self {
        Self::sharing(a)
    }
}

impl<A: Arena> From<&Rc<A>> for ArenaRc<A> {
    /// Shares an arena that has other owners already.
    fn from(a: &Rc<A>) -> (rc: ArenaRc<A>) {
        ArenaRc { inner: share(a) }
    }
}

impl<A: Arena> FromSpecImpl<&Rc<A>> for ArenaRc<A> {
    open spec fn obeys_from_spec() -> bool {
        true
    }

    open spec fn from_spec(a: &Rc<A>) -> Self {
        Self::sharing(**a)
    }
}

impl<A: Arena> Deref for ArenaRc<A> {
    type Target = A;

    /// The shared arena itself.
    fn deref(&self) -> (a: &A)
        ensures
            *a == self@,
    {
        &self.inner
    }
}

impl<A: Arena> ArenaRef<A> {
    #[verifier::type_invariant]
    spec fn resolves(self) -> bool {
        self.arena.items().contains_key(self.idx)
    }

    /// The id of the item.
    pub closed spec fn idx(&self) -> u64 {
        self.idx
    }

    /// The arena that holds the item.
    pub closed spec fn arena_view(&self) -> A {
        *self.arena
    }

    /// Two references to the same id of the same arena are the same.
    pub proof fn lemma_same(self, other: Self)
        requires
            self.idx() == other.idx(),
            self.arena_view() == other.arena_view(),
        ensures
            self == other,
    {
    }

    /// The item itself.
    pub open spec fn item(&self) -> A::Item {
        self.arena_view().items()[self.idx()]
    }

    fn from_rc(arena: Rc<A>, idx: &u64) -> (r: Option<Self>)
        ensures
            arena.items().contains_key(*idx) <==> r is Some,
            r matches Some(x) ==> x.idx() == *idx && x.arena_view() == *arena,
    {
        match arena.get(idx) {
            Some(_) => Some(ArenaRef { idx: *idx, arena }),
            None => None,
        }
    }

    /// The id under which the item is held.
    pub fn id(&self) -> (idx: u64)
        ensures
            idx == self.idx(),
    {
        self.idx
    }

    /// A shared handle on the arena that holds the item.
    pub fn arena(&self) -> (rc: ArenaRc<A>)
        ensures
            rc@ == self.arena_view(),
    {
        ArenaRc { inner: share(&self.arena) }
    }

    /// Looks the item up again. The lookup of a reference never fails.
    pub fn get(&self) -> (item: Option<&A::Item>)
        ensures
            item == Some(&self.item()),
    {
        proof {
            use_type_invariant(self);
        }
        self.arena.get(&self.idx)
    }

}

impl<A: Arena> Deref for ArenaRef<A> {
    type Target = A::Item;

    /// The item that the reference names.
    fn deref(&self) -> (item: &A::Item)
        ensures
            *item == self.item(),
    {
        self.get().unwrap()
    }
}

impl<A: Arena> Clone for ArenaRef<A> {
    /// Another reference to the same item of the same arena.
    fn clone(&self) -> (other: Self)
        ensures
            other == *self,
    {
        proof {
            use_type_invariant(self);
        }
        ArenaRef { idx: self.idx, arena: share(&self.arena) }
    }
}

} // verus!
