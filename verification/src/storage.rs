//! A single asset behind shared ownership, tagged with the identity of its type.

use crate::error::{AssetError, AssetErrorView};
use std::rc::Rc;
use vstd::prelude::*;

verus! {

/// The identity of an asset's type. Two assets have the same type exactly
/// when their keys are equal.
pub type TypeKey = u64;

/// One asset of type identity `type_id`. Handles obtained with
/// [`AssetStorage::try_get`] share the value; [`AssetStorage::try_take`] gives
/// it out whole, and only while no such handle is alive.
#[derive(Debug)]
pub struct AssetStorage<A> {
    type_id: TypeKey,
    value: Rc<A>,
}

/// What an [`AssetStorage`] holds.
pub struct StoredAsset<A> {
    pub type_id: TypeKey,
    pub value: A,
}

impl<A> StoredAsset<A> {
    /// What a get under type `ty` answers.
    pub open spec fn get(self, ty: TypeKey) -> Result<A, AssetErrorView> {
        if ty == self.type_id {
            Ok(self.value)
        } else {
            Err(AssetErrorView::InvalidType)
        }
    }

    /// What a take under type `ty` answers, where `unique` says that no
    /// shared handle to the value is alive.
    pub open spec fn take(self, ty: TypeKey, unique: bool) -> Result<A, (AssetErrorView, StoredAsset<A>)> {
        if ty != self.type_id {
            Err((AssetErrorView::InvalidType, self))
        } else if unique {
            Ok(self.value)
        } else {
            Err((AssetErrorView::InvalidTake, self))
        }
    }
}

/// A take result with the error and the storage taken by their views.
pub open spec fn take_view<A>(r: Result<A, (AssetError, AssetStorage<A>)>) -> Result<
    A,
    (AssetErrorView, StoredAsset<A>),
> {
    match r {
        Ok(v) => Ok(v),
        Err((e, s)) => Err((e@, s@)),
    }
}

/// `Rc::clone`: the new handle points to the same value as `handle`.
#[verifier::external_body]
fn share<A>(handle: &Rc<A>) -> (r: Rc<A>)
    ensures
        *r == **handle,
{
    Rc::clone(handle)
}

impl<A> View for AssetStorage<A> {
    type V = StoredAsset<A>;

    closed spec fn view(&self) -> StoredAsset<A> {
        StoredAsset { type_id: self.type_id, value: *self.value }
    }
}

impl<A> AssetStorage<A> {
    /// Wraps `value` as an asset of type `type_id`.
    pub fn new(type_id: TypeKey, value: A) -> (s: Self)
        ensures
            s@ == (StoredAsset { type_id, value }),
    {
        AssetStorage { type_id, value: Rc::new(value) }
    }

    /// The identity of the asset's type.
    pub fn type_id(&self) -> (id: TypeKey)
        ensures
            id == self@.type_id,
    {
        self.type_id
    }

    /// A new shared handle to the asset, if it is of type `ty`.
    pub fn try_get(&self, ty: TypeKey) -> (r: Result<Rc<A>, AssetError>)
        ensures
            match r {
                Ok(handle) => self@.get(ty) == Ok::<A, AssetErrorView>(*handle),
                Err(e) => self@.get(ty) == Err::<A, AssetErrorView>(e@),
            },
    {
        if ty == self.type_id {
            Ok(share(&self.value))
        } else {
            Err(AssetError::InvalidType)
        }
    }

    /// Ends a take of an asset of type `type_id` on what `Rc::try_unwrap`
    /// answered: the owned value if it was the only handle, else the storage
    /// as it was, with `InvalidTake`.
    pub fn settle_take(type_id: TypeKey, unwrapped: Result<A, Rc<A>>) -> (r: Result<A, (AssetError, Self)>)
        ensures
            match unwrapped {
                Ok(v) => r == Ok::<A, (AssetError, Self)>(v),
                Err(shared) => r matches Err((e, s)) && e == AssetError::InvalidTake && s@ == (StoredAsset {
                    type_id,
                    value: *shared,
                }),
            },
    {
        match unwrapped {
            Ok(v) => Ok(v),
            Err(shared) => Err((AssetError::InvalidTake, AssetStorage { type_id, value: shared })),
        }
    }

    /// Gives the asset out as an owned value of type `ty`. On a failure the
    /// storage comes back as it was: with `InvalidType` if `ty` is not its
    /// type, with `InvalidTake` if a shared handle to it is still alive.
    pub fn try_take(self, ty: TypeKey) -> (r: Result<A, (AssetError, Self)>)
        ensures
            take_view(r) == self@.take(ty, r is Ok),
    {
        if ty != self.type_id {
            Err((AssetError::InvalidType, self))
        } else {
            let type_id = self.type_id;
            Self::settle_take(type_id, Rc::try_unwrap(self.value))
        }
    }
}

/// While a shared handle is alive, a take under the asset's own type fails
/// with `InvalidTake` and gives the storage back with the value still to be
/// had by a get; once none is alive, the take gives out the value.
pub proof fn lemma_take_get_exclusion<A>(s: StoredAsset<A>)
    ensures
        s.get(s.type_id) == Ok::<A, AssetErrorView>(s.value),
        s.take(s.type_id, false) == Err::<A, (AssetErrorView, StoredAsset<A>)>((AssetErrorView::InvalidTake, s)),
        s.take(s.type_id, true) == Ok::<A, (AssetErrorView, StoredAsset<A>)>(s.value),
{
}

/// A take that fails, for whatever reason, gives back what the storage held.
pub proof fn lemma_failed_take_keeps_asset<A>(s: StoredAsset<A>, ty: TypeKey, unique: bool)
    ensures
        s.take(ty, unique) matches Err((_, kept)) ==> kept == s,
        s.take(ty, unique) is Err <==> ty != s.type_id || !unique,
{
}

} // verus!
