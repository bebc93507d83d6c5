//! A map from names to assets that is bound to one type identity: every asset
//! in it has the type of the map.

use crate::error::{AssetError, AssetErrorView};
use crate::name_map::NameMap;
use crate::storage::{AssetStorage, StoredAsset, TypeKey};
use std::rc::Rc;
use vstd::prelude::*;

verus! {

/// The values that a map of storages holds, by name.
pub open spec fn assets_of<A>(m: Map<Seq<char>, AssetStorage<A>>) -> Map<Seq<char>, A> {
    Map::new(|name: Seq<char>| m.contains_key(name), |name: Seq<char>| m[name]@.value)
}

/// Every storage in `m` is of type `type_id`.
pub open spec fn all_of_type<A>(m: Map<Seq<char>, AssetStorage<A>>, type_id: TypeKey) -> bool {
    forall|name: Seq<char>| #[trigger] m.contains_key(name) ==> m[name]@.type_id == type_id
}

/// What an [`AssetMap`] holds: the type it is bound to, and its assets by name.
pub struct AssetMapView<A> {
    pub type_id: TypeKey,
    pub assets: Map<Seq<char>, A>,
}

/// The result of an insert, with the error and the storage taken by their views.
pub open spec fn insert_view<A>(r: Result<Option<A>, (AssetError, Option<AssetStorage<A>>)>) -> Result<
    Option<A>,
    (AssetErrorView, Option<StoredAsset<A>>),
> {
    match r {
        Ok(previous) => Ok(previous),
        Err((e, Some(s))) => Err((e@, Some(s@))),
        Err((e, None)) => Err((e@, None)),
    }
}

/// A result with its error taken by its view.
pub open spec fn error_view<T>(r: Result<T, AssetError>) -> Result<T, AssetErrorView> {
    match r {
        Ok(v) => Ok(v),
        Err(e) => Err(e@),
    }
}

/// The handles in `handles` point to the values of `assets`, name by name.
pub open spec fn handles_to<A>(handles: Map<Seq<char>, Rc<A>>, assets: Map<Seq<char>, A>) -> bool {
    &&& forall|name: Seq<char>| handles.contains_key(name) <==> assets.contains_key(name)
    &&& forall|name: Seq<char>| #[trigger] handles.contains_key(name) ==> *handles[name] == assets[name]
}

impl<A> AssetMapView<A> {
    /// The map bound to `type_id` that holds no asset.
    pub open spec fn empty(type_id: TypeKey) -> Self {
        AssetMapView { type_id, assets: Map::empty() }
    }

    /// This map with `asset` under `name`.
    pub open spec fn with(self, name: Seq<char>, asset: A) -> Self {
        AssetMapView { type_id: self.type_id, assets: self.assets.insert(name, asset) }
    }

    /// This map without `name`.
    pub open spec fn without(self, name: Seq<char>) -> Self {
        AssetMapView { type_id: self.type_id, assets: self.assets.remove(name) }
    }

    /// This map with the assets of `other` added; under a name that both
    /// have, the asset of `other` stays.
    pub open spec fn extended(self, other: Self) -> Self {
        AssetMapView { type_id: self.type_id, assets: self.assets.union_prefer_right(other.assets) }
    }

    /// What an insert of `asset` as type `ty` under `name` answers, and the
    /// map after it. `unique` says that no shared handle to the asset that
    /// was under `name` before is alive.
    pub open spec fn insert(self, ty: TypeKey, name: Seq<char>, asset: A, unique: bool) -> (
        Result<Option<A>, (AssetErrorView, Option<StoredAsset<A>>)>,
        Self,
    ) {
        if ty != self.type_id {
            (Err((AssetErrorView::InvalidType, None)), self)
        } else if !self.assets.contains_key(name) {
            (Ok(None), self.with(name, asset))
        } else if unique {
            (Ok(Some(self.assets[name])), self.with(name, asset))
        } else {
            (
                Err(
                    (
                        AssetErrorView::InvalidTake,
                        Some(StoredAsset { type_id: self.type_id, value: self.assets[name] }),
                    ),
                ),
                self.with(name, asset),
            )
        }
    }

    /// What a get of `name` as type `ty` answers.
    pub open spec fn get(self, ty: TypeKey, name: Seq<char>) -> Result<A, AssetErrorView> {
        if !self.assets.contains_key(name) {
            Err(AssetErrorView::AssetNotFound(name))
        } else if ty != self.type_id {
            Err(AssetErrorView::InvalidType)
        } else {
            Ok(self.assets[name])
        }
    }

    /// What a take of `name` as type `ty` answers, and the map after it.
    /// `unique` says that no shared handle to the asset is alive.
    pub open spec fn take(self, ty: TypeKey, name: Seq<char>, unique: bool) -> (Result<A, AssetErrorView>, Self) {
        if !self.assets.contains_key(name) {
            (Err(AssetErrorView::AssetNotFound(name)), self)
        } else if ty != self.type_id {
            (Err(AssetErrorView::InvalidType), self)
        } else if unique {
            (Ok(self.assets[name]), self.without(name))
        } else {
            (Err(AssetErrorView::InvalidTake), self)
        }
    }

    /// What reading all assets as type `ty` answers: the assets, if the
    /// type is that of the map or there is no asset to ask.
    pub open spec fn read(self, ty: TypeKey) -> Result<Map<Seq<char>, A>, AssetErrorView> {
        if ty == self.type_id || self.assets == Map::<Seq<char>, A>::empty() {
            Ok(self.assets)
        } else {
            Err(AssetErrorView::InvalidType)
        }
    }

    /// What draining the map as type `ty` answers: all its assets, or an
    /// error beside the map as it was. `unique` says that no shared handle
    /// to an asset of the map is alive.
    pub open spec fn drain(self, ty: TypeKey, unique: bool) -> Result<Map<Seq<char>, A>, (AssetErrorView, Self)> {
        if self.assets == Map::<Seq<char>, A>::empty() {
            Ok(self.assets)
        } else if ty != self.type_id {
            Err((AssetErrorView::InvalidType, self))
        } else if unique {
            Ok(self.assets)
        } else {
            Err((AssetErrorView::InvalidTake, self))
        }
    }
}

/// A drain that fails, because of the type or because an asset is still
/// shared, hands back a map that holds every asset that the drained map held.
pub proof fn lemma_failed_drain_loses_nothing<A>(map: AssetMapView<A>, ty: TypeKey, unique: bool)
    ensures
        map.drain(ty, unique) matches Err((_, back)) ==> back == map,
        map.drain(ty, unique) is Err <==> map.assets != Map::<Seq<char>, A>::empty() && (ty != map.type_id
            || !unique),
{
}

/// A map from names to assets of one type.
#[derive(Debug)]
pub struct AssetMap<A> {
    type_id: TypeKey,
    entries: NameMap<AssetStorage<A>>,
}

impl<A> View for AssetMap<A> {
    type V = AssetMapView<A>;

    closed spec fn view(&self) -> AssetMapView<A> {
        AssetMapView { type_id: self.type_id, assets: assets_of(self.entries@) }
    }
}

/// `rest` and `taken` hold between them the assets of `whole`, each under its
/// name and in one of the two only; those in `rest` as storages of the type
/// of `whole`.
spec fn split_of<A>(whole: AssetMapView<A>, rest: Map<Seq<char>, AssetStorage<A>>, taken: Map<Seq<char>, A>) -> bool {
    &&& forall|name: Seq<char>| #[trigger]
        whole.assets.contains_key(name) ==> rest.contains_key(name) || taken.contains_key(name)
    &&& forall|name: Seq<char>| #[trigger]
        rest.contains_key(name) ==> {
            &&& whole.assets.contains_key(name)
            &&& !taken.contains_key(name)
            &&& rest[name]@ == (StoredAsset { type_id: whole.type_id, value: whole.assets[name] })
        }
    &&& forall|name: Seq<char>| #[trigger]
        taken.contains_key(name) ==> whole.assets.contains_key(name) && taken[name] == whole.assets[name]
}

impl<A> AssetMap<A> {
    /// No name occurs twice, and every asset has the type of the map.
    pub closed spec fn wf(&self) -> bool {
        self.entries.wf() && all_of_type(self.entries@, self.type_id)
    }

    /// An empty map bound to `type_id`.
    pub fn new(type_id: TypeKey) -> (m: Self)
        ensures
            m.wf(),
            m@ == AssetMapView::<A>::empty(type_id),
    {
        let m = AssetMap { type_id, entries: NameMap::new() };
        assert(m@.assets =~= Map::<Seq<char>, A>::empty());
        m
    }

    /// An empty map bound to `type_id`; the same as [`Self::new`].
    pub fn from_type_id(type_id: TypeKey) -> (m: Self)
        ensures
            m.wf(),
            m@ == AssetMapView::<A>::empty(type_id),
    {
        Self::new(type_id)
    }

    /// A map bound to `type_id` that holds `asset` under `name`.
    pub fn from_asset(type_id: TypeKey, name: &str, asset: A) -> (m: Self)
        ensures
            m.wf(),
            m@ == AssetMapView::<A>::empty(type_id).with(name@, asset),
    {
        let mut entries: NameMap<AssetStorage<A>> = NameMap::new();
        entries.insert(name.to_owned(), AssetStorage::new(type_id, asset));
        let m = AssetMap { type_id, entries };
        assert(m@.assets =~= Map::<Seq<char>, A>::empty().insert(name@, asset));
        m
    }

    /// A map bound to `type_id` that holds the values of `map`, each under its name.
    #[verifier::loop_isolation(false)]
    pub fn from_map(type_id: TypeKey, map: NameMap<A>) -> (m: Self)
        requires
            map.wf(),
        ensures
            m.wf(),
            m@ == (AssetMapView { type_id, assets: map@ }),
    {
        let ghost whole = AssetMapView { type_id, assets: map@ };
        let mut taken = map;
        let mut entries: NameMap<AssetStorage<A>> = NameMap::new();
        loop
            invariant
                taken.wf(),
                entries.wf(),
                split_of(whole, entries@, taken@),
            decreases taken.entries().len(),
        {
            match taken.pop() {
                None => {
                    let m = AssetMap { type_id, entries };
                    assert(m@.assets =~= whole.assets);
                    return m;
                },
                Some((name, asset)) => {
                    entries.insert(name, AssetStorage::new(type_id, asset));
                },
            }
        }
    }

    /// The type identity that the map is bound to.
    pub fn type_id(&self) -> (id: TypeKey)
        ensures
            id == self@.type_id,
    {
        self.type_id
    }

    /// Whether the map holds no asset.
    pub fn is_empty(&self) -> (b: bool)
        requires
            self.wf(),
        ensures
            b == (self@.assets == Map::<Seq<char>, A>::empty()),
    {
        let b = self.entries.is_empty();
        proof {
            if b {
                assert(self@.assets =~= Map::<Seq<char>, A>::empty());
            } else {
                let first = self.entries.entries()[0].0@;
                crate::name_map::lemma_nonempty(self.entries.entries());
                assert(self@.assets.contains_key(first));
            }
        }
        b
    }

    /// Whether the map holds an asset under `name`.
    pub fn contains(&self, name: &str) -> (b: bool)
        requires
            self.wf(),
        ensures
            b == self@.assets.contains_key(name@),
    {
        let key = name.to_owned();
        self.entries.contains_key(&key)
    }

    /// Adds the assets of `other`, which must be bound to the same type.
    /// Under a name that both maps have, the asset of `other` stays. On a
    /// mismatch nothing changes.
    #[verifier::loop_isolation(false)]
    pub fn try_extend(&mut self, other: AssetMap<A>) -> (r: Result<(), AssetError>)
        requires
            old(self).wf(),
            other.wf(),
        ensures
            final(self).wf(),
            other@.type_id == old(self)@.type_id ==> r is Ok && final(self)@ == old(self)@.extended(other@),
            other@.type_id != old(self)@.type_id ==> {
                &&& r == Err::<(), AssetError>(AssetError::InvalidType)
                &&& final(self)@ == old(self)@
            },
    {
        if other.type_id != self.type_id {
            return Err(AssetError::InvalidType);
        }
        let ghost before = self.entries@;
        let ghost added = other.entries@;
        let mut rest = other.entries;
        loop
            invariant
                rest.wf(),
                self.entries.wf(),
                self.type_id == old(self).type_id,
                all_of_type(self.entries@, self.type_id),
                all_of_type(added, self.type_id),
                forall|name: Seq<char>| #[trigger]
                    rest@.contains_key(name) ==> added.contains_key(name) && rest@[name] == added[name],
                forall|name: Seq<char>| #[trigger]
                    before.contains_key(name) ==> self.entries@.contains_key(name),
                forall|name: Seq<char>| #[trigger]
                    added.contains_key(name) ==> rest@.contains_key(name) || self.entries@.contains_key(name),
                forall|name: Seq<char>| #[trigger]
                    self.entries@.contains_key(name) ==> before.contains_key(name) || (added.contains_key(name)
                        && !rest@.contains_key(name)),
                forall|name: Seq<char>| #[trigger]
                    self.entries@.contains_key(name) ==> self.entries@[name] == if added.contains_key(name)
                        && !rest@.contains_key(name) {
                        added[name]
                    } else {
                        before[name]
                    },
            decreases rest.entries().len(),
        {
            match rest.pop() {
                None => {
                    assert(self@.assets =~= old(self)@.assets.union_prefer_right(other@.assets));
                    return Ok(());
                },
                Some((name, storage)) => {
                    self.entries.insert(name, storage);
                },
            }
        }
    }

    /// Stores `asset` as type `ty` under `name`. If `ty` is not the type of
    /// the map, nothing changes. Otherwise the asset is stored, and what was
    /// under `name` before comes back: as an owned value, or, while a shared
    /// handle to it is alive, as its storage beside `InvalidTake`.
    pub fn try_insert(&mut self, ty: TypeKey, name: &str, asset: A) -> (r: Result<
        Option<A>,
        (AssetError, Option<AssetStorage<A>>),
    >)
        requires
            old(self).wf(),
        ensures
            final(self).wf(),
            (insert_view(r), final(self)@) == old(self)@.insert(ty, name@, asset, r is Ok),
    {
        if ty != self.type_id {
            return Err((AssetError::InvalidType, None));
        }
        let previous = self.entries.insert(name.to_owned(), AssetStorage::new(ty, asset));
        assert(final(self)@.assets =~= old(self)@.assets.insert(name@, asset));
        match previous {
            None => Ok(None),
            Some(storage) => {
                match storage.try_take(ty) {
                    Ok(v) => Ok(Some(v)),
                    Err((e, s)) => Err((e, Some(s))),
                }
            },
        }
    }

    /// A shared handle to the asset under `name`, as type `ty`.
    pub fn try_get(&self, ty: TypeKey, name: &str) -> (r: Result<Rc<A>, AssetError>)
        requires
            self.wf(),
        ensures
            match r {
                Ok(handle) => self@.get(ty, name@) == Ok::<A, AssetErrorView>(*handle),
                Err(e) => self@.get(ty, name@) == Err::<A, AssetErrorView>(e@),
            },
    {
        let key = name.to_owned();
        match self.entries.get(&key) {
            Some(storage) => storage.try_get(ty),
            None => Err(AssetError::AssetNotFound(key)),
        }
    }

    /// Takes the asset under `name` out of the map, as an owned value of type
    /// `ty`. Where that fails the map is as before.
    pub fn try_take(&mut self, ty: TypeKey, name: &str) -> (r: Result<A, AssetError>)
        requires
            old(self).wf(),
        ensures
            final(self).wf(),
            (error_view(r), final(self)@) == old(self)@.take(ty, name@, r is Ok),
    {
        let key = name.to_owned();
        match self.entries.remove(&key) {
            Some(storage) => {
                match storage.try_take(ty) {
                    Ok(v) => {
                        assert(final(self)@.assets =~= old(self)@.assets.remove(name@));
                        Ok(v)
                    },
                    Err((e, storage)) => {
                        self.entries.insert(key, storage);
                        assert(final(self)@.assets =~= old(self)@.assets);
                        Err(e)
                    },
                }
            },
            None => {
                assert(final(self)@.assets =~= old(self)@.assets);
                Err(AssetError::AssetNotFound(key))
            },
        }
    }

    /// Drains the map into the owned values of its assets, as type `ty`. It
    /// fails on the first asset that cannot be taken, and then hands back a
    /// map that holds every asset that this one held.
    #[verifier::loop_isolation(false)]
    pub fn try_into(self, ty: TypeKey) -> (r: Result<NameMap<A>, (AssetError, AssetMap<A>)>)
        requires
            self.wf(),
        ensures
            match r {
                Ok(values) => values.wf() && self@.drain(ty, true) == Ok::<Map<Seq<char>, A>, (AssetErrorView, AssetMapView<A>)>(
                    values@,
                ),
                Err((e, back)) => back.wf() && self@.drain(ty, false) == Err::<
                    Map<Seq<char>, A>,
                    (AssetErrorView, AssetMapView<A>),
                >((e@, back@)),
            },
    {
        let ghost whole = self@;
        let type_id = self.type_id;
        let mut rest = self.entries;
        let mut taken: NameMap<A> = NameMap::new();
        loop
            invariant
                rest.wf(),
                taken.wf(),
                whole.type_id == type_id,
                split_of(whole, rest@, taken@),
                ty == type_id || taken@ == Map::<Seq<char>, A>::empty(),
            decreases rest.entries().len(),
        {
            match rest.pop() {
                None => {
                    assert(taken@ =~= whole.assets);
                    return Ok(taken);
                },
                Some((name, storage)) => {
                    assert(whole.assets.contains_key(name@));
                    match storage.try_take(ty) {
                        Ok(asset) => {
                            taken.insert(name, asset);
                            assert(taken@.contains_key(name@));
                        },
                        Err((e, storage)) => {
                            rest.insert(name, storage);
                            loop
                                invariant
                                    rest.wf(),
                                    taken.wf(),
                                    whole.type_id == type_id,
                                    split_of(whole, rest@, taken@),
                                decreases taken.entries().len(),
                            {
                                match taken.pop() {
                                    None => {
                                        break ;
                                    },
                                    Some((given, asset)) => {
                                        rest.insert(given, AssetStorage::new(type_id, asset));
                                    },
                                }
                            }
                            let back = AssetMap { type_id, entries: rest };
                            assert(back@.assets =~= whole.assets);
                            return Err((e, back));
                        },
                    }
                },
            }
        }
    }

    /// Shared handles to all assets of the map, as type `ty`. The map stays as it is.
    #[verifier::loop_isolation(false)]
    pub fn try_as(&self, ty: TypeKey) -> (r: Result<NameMap<Rc<A>>, AssetError>)
        requires
            self.wf(),
        ensures
            match r {
                Ok(handles) => handles.wf() && self@.read(ty) is Ok && handles_to(handles@, self@.assets),
                Err(e) => self@.read(ty) == Err::<Map<Seq<char>, A>, AssetErrorView>(e@),
            },
    {
        let mut handles: NameMap<Rc<A>> = NameMap::new();
        let n: usize = self.entries.len();
        let mut i: usize = 0;
        while i < n
            invariant
                self.wf(),
                handles.wf(),
                n == self.entries.entries().len(),
                i <= n,
                i > 0 ==> ty == self.type_id,
                forall|name: Seq<char>| #[trigger]
                    handles@.contains_key(name) <==> exists|j: int|
                        0 <= j < i && (#[trigger] self.entries.entries()[j]).0@ == name,
                forall|name: Seq<char>| #[trigger]
                    handles@.contains_key(name) ==> self.entries@.contains_key(name) && *handles@[name]
                        == self.entries@[name]@.value,
            decreases n - i,
        {
            let (name, storage) = self.entries.entry(i);
            match storage.try_get(ty) {
                Ok(handle) => {
                    handles.insert(name.clone(), handle);
                },
                Err(e) => {
                    assert(self@.assets.contains_key(name@));
                    return Err(e);
                },
            }
            i += 1;
        }
        proof {
            assert forall|name: Seq<char>| handles@.contains_key(name) <==> self@.assets.contains_key(name) by {
                if self.entries@.contains_key(name) {
                    let j = crate::name_map::index_of(self.entries.entries(), name);
                    assert(self.entries.entries()[j].0@ == name);
                }
            }
            if n == 0 {
                assert(self@.assets =~= Map::<Seq<char>, A>::empty());
            }
        }
        Ok(handles)
    }
}

} // verus!
