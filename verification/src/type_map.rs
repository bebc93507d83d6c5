//! The registry of assets: one [`AssetMap`] per kind of asset, by the kind's name.

use crate::asset_map::{error_view, handles_to, insert_view, AssetMap, AssetMapView};
use crate::error::{AssetError, AssetErrorView};
use crate::name_map::NameMap;
use crate::storage::{AssetStorage, StoredAsset, TypeKey};
use std::rc::Rc;
use vstd::prelude::*;

verus! {

/// The contents of the maps in `m`, by kind.
pub open spec fn buckets_of<A>(m: Map<Seq<char>, AssetMap<A>>) -> Map<Seq<char>, AssetMapView<A>> {
    Map::new(|kind: Seq<char>| m.contains_key(kind), |kind: Seq<char>| m[kind]@)
}

/// Every map in `m` is well formed.
pub open spec fn all_wf<A>(m: Map<Seq<char>, AssetMap<A>>) -> bool {
    forall|kind: Seq<char>| #[trigger] m.contains_key(kind) ==> m[kind].wf()
}

/// What an [`AssetTypeMap`] holds: the contents of its maps, by kind.
pub struct AssetTypeMapView<A> {
    pub buckets: Map<Seq<char>, AssetMapView<A>>,
}

impl<A> AssetTypeMapView<A> {
    /// The registry without any kind.
    pub open spec fn empty() -> Self {
        AssetTypeMapView { buckets: Map::empty() }
    }

    /// This registry with `bucket` under `kind`.
    pub open spec fn with_bucket(self, kind: Seq<char>, bucket: AssetMapView<A>) -> Self {
        AssetTypeMapView { buckets: self.buckets.insert(kind, bucket) }
    }

    /// This registry without `kind`.
    pub open spec fn without(self, kind: Seq<char>) -> Self {
        AssetTypeMapView { buckets: self.buckets.remove(kind) }
    }

    /// What an insert of `asset` as type `ty` under `kind` and `name`
    /// answers, and the registry after it: a kind not seen before gets a map
    /// bound to `ty`; otherwise the map of that kind decides.
    pub open spec fn insert_asset(
        self,
        kind: Seq<char>,
        ty: TypeKey,
        name: Seq<char>,
        asset: A,
        unique: bool,
    ) -> (Result<Option<A>, (AssetErrorView, Option<StoredAsset<A>>)>, Self) {
        if !self.buckets.contains_key(kind) {
            (Ok(None), self.with_bucket(kind, AssetMapView::empty(ty).with(name, asset)))
        } else {
            let (answer, bucket) = self.buckets[kind].insert(ty, name, asset, unique);
            (answer, self.with_bucket(kind, bucket))
        }
    }

    /// What a get under `kind` and `name` as type `ty` answers.
    pub open spec fn get_asset(self, kind: Seq<char>, ty: TypeKey, name: Seq<char>) -> Result<A, AssetErrorView> {
        if !self.buckets.contains_key(kind) {
            Err(AssetErrorView::AssetTypeNotFound(kind))
        } else {
            self.buckets[kind].get(ty, name)
        }
    }

    /// What a take under `kind` and `name` as type `ty` answers, and the
    /// registry after it.
    pub open spec fn take_asset(self, kind: Seq<char>, ty: TypeKey, name: Seq<char>, unique: bool) -> (
        Result<A, AssetErrorView>,
        Self,
    ) {
        if !self.buckets.contains_key(kind) {
            (Err(AssetErrorView::AssetTypeNotFound(kind)), self)
        } else {
            let (answer, bucket) = self.buckets[kind].take(ty, name, unique);
            (answer, self.with_bucket(kind, bucket))
        }
    }

    /// What reading all assets of `kind` as type `ty` answers.
    pub open spec fn get_asset_map(self, kind: Seq<char>, ty: TypeKey) -> Result<Map<Seq<char>, A>, AssetErrorView> {
        if !self.buckets.contains_key(kind) {
            Err(AssetErrorView::AssetTypeNotFound(kind))
        } else {
            self.buckets[kind].read(ty)
        }
    }

    /// What taking the whole map of `kind` as type `ty` answers, and the
    /// registry after it: without the kind where the take succeeds, else as
    /// it was. `unique` says that no shared handle to an asset of the kind
    /// is alive.
    pub open spec fn take_asset_map(self, kind: Seq<char>, ty: TypeKey, unique: bool) -> (
        Result<Map<Seq<char>, A>, AssetErrorView>,
        Self,
    ) {
        if !self.buckets.contains_key(kind) {
            (Err(AssetErrorView::AssetTypeNotFound(kind)), self)
        } else {
            match self.buckets[kind].drain(ty, unique) {
                Ok(values) => (Ok(values), self.without(kind)),
                Err((e, _)) => (Err(e), self),
            }
        }
    }

    /// No kind that both registries have is bound to two types.
    pub open spec fn compatible(self, other: Self) -> bool {
        forall|kind: Seq<char>|
            #![trigger self.buckets.contains_key(kind)]
            #![trigger other.buckets.contains_key(kind)]
            self.buckets.contains_key(kind) && other.buckets.contains_key(kind) ==> self.buckets[kind].type_id
                == other.buckets[kind].type_id
    }

    /// The map of `kind` after it was merged with that of `other`: extended
    /// where both have the kind, else the one that is there.
    pub open spec fn merged_bucket(self, other: Self, kind: Seq<char>) -> AssetMapView<A> {
        if self.buckets.contains_key(kind) && other.buckets.contains_key(kind) {
            self.buckets[kind].extended(other.buckets[kind])
        } else if other.buckets.contains_key(kind) {
            other.buckets[kind]
        } else {
            self.buckets[kind]
        }
    }

    /// This registry with every kind of `other` merged in.
    pub open spec fn combined(self, other: Self) -> Self {
        AssetTypeMapView {
            buckets: Map::new(
                |kind: Seq<char>| self.buckets.contains_key(kind) || other.buckets.contains_key(kind),
                |kind: Seq<char>| self.merged_bucket(other, kind),
            ),
        }
    }

    /// `after` is this registry with some kinds of `other` merged in, each of
    /// them wholly, and none whose types differ; every other kind is as it was.
    pub open spec fn partly_combined(self, other: Self, after: Self) -> bool {
        &&& forall|kind: Seq<char>| #[trigger] self.buckets.contains_key(kind) ==> after.buckets.contains_key(kind)
        &&& forall|kind: Seq<char>| #[trigger]
            after.buckets.contains_key(kind) ==> {
                ||| self.buckets.contains_key(kind) && after.buckets[kind] == self.buckets[kind]
                ||| {
                    &&& other.buckets.contains_key(kind)
                    &&& after.buckets[kind] == self.merged_bucket(other, kind)
                    &&& self.buckets.contains_key(kind) ==> self.buckets[kind].type_id
                        == other.buckets[kind].type_id
                }
            }
    }
}

/// The registry of assets, by kind and name.
#[derive(Debug)]
pub struct AssetTypeMap<A> {
    map: NameMap<AssetMap<A>>,
}

impl<A> View for AssetTypeMap<A> {
    type V = AssetTypeMapView<A>;

    closed spec fn view(&self) -> AssetTypeMapView<A> {
        AssetTypeMapView { buckets: buckets_of(self.map@) }
    }
}

impl<A> AssetTypeMap<A> {
    /// No kind occurs twice, and the map of every kind is well formed.
    pub closed spec fn wf(&self) -> bool {
        self.map.wf() && all_wf(self.map@)
    }

    /// A registry without any kind.
    pub fn new() -> (m: Self)
        ensures
            m.wf(),
            m@ == AssetTypeMapView::<A>::empty(),
    {
        let m = AssetTypeMap { map: NameMap::new() };
        assert(m@.buckets =~= Map::<Seq<char>, AssetMapView<A>>::empty());
        m
    }

    /// Whether the registry has a map for `kind`.
    pub fn contains_kind(&self, kind: &str) -> (b: bool)
        requires
            self.wf(),
        ensures
            b == self@.buckets.contains_key(kind@),
    {
        let key = kind.to_owned();
        self.map.contains_key(&key)
    }

    /// Merges `other` into this registry, kind by kind: a kind that both have
    /// is extended, a new one is adopted. It stops at the first kind that the
    /// two bind to different types: the kinds merged before it stay merged,
    /// that kind and the rest of this registry are as they were, and what was
    /// left of `other` is dropped.
    #[verifier::loop_isolation(false)]
    pub fn try_combine(&mut self, other: AssetTypeMap<A>) -> (r: Result<(), AssetError>)
        requires
            old(self).wf(),
            other.wf(),
        ensures
            final(self).wf(),
            r is Ok <==> old(self)@.compatible(other@),
            r is Ok ==> final(self)@ == old(self)@.combined(other@),
            r is Err ==> r == Err::<(), AssetError>(AssetError::InvalidType) && old(self)@.partly_combined(
                other@,
                final(self)@,
            ),
    {
        let ghost mine = old(self)@;
        let ghost theirs = other@;
        let mut rest = other.map;
        loop
            invariant
                rest.wf(),
                all_wf(rest@),
                self.map.wf(),
                all_wf(self.map@),
                forall|kind: Seq<char>| #[trigger]
                    rest@.contains_key(kind) ==> theirs.buckets.contains_key(kind) && rest@[kind]@
                        == theirs.buckets[kind],
                forall|kind: Seq<char>| #[trigger] mine.buckets.contains_key(kind) ==> self.map@.contains_key(kind),
                forall|kind: Seq<char>| #[trigger]
                    theirs.buckets.contains_key(kind) ==> rest@.contains_key(kind) || {
                        &&& self.map@.contains_key(kind)
                        &&& self.map@[kind]@ == mine.merged_bucket(theirs, kind)
                        &&& mine.buckets.contains_key(kind) ==> mine.buckets[kind].type_id
                            == theirs.buckets[kind].type_id
                    },
                forall|kind: Seq<char>| #[trigger]
                    self.map@.contains_key(kind) ==> {
                        ||| theirs.buckets.contains_key(kind) && !rest@.contains_key(kind)
                        ||| mine.buckets.contains_key(kind) && self.map@[kind]@ == mine.buckets[kind]
                    },
            decreases rest.entries().len(),
        {
            match rest.pop() {
                None => {
                    assert(self@.buckets =~= mine.combined(theirs).buckets);
                    return Ok(());
                },
                Some((kind, bucket)) => {
                    assert(theirs.buckets.contains_key(kind@));
                    match self.map.remove(&kind) {
                        Some(mut own) => {
                            assert(mine.buckets.contains_key(kind@));
                            let merged = own.try_extend(bucket);
                            self.map.insert(kind, own);
                            if merged.is_err() {
                                assert(self.map@[kind@]@ == mine.buckets[kind@]);
                                assert(mine.buckets[kind@].type_id != theirs.buckets[kind@].type_id);
                                return Err(AssetError::InvalidType);
                            }
                        },
                        None => {
                            self.map.insert(kind, bucket);
                        },
                    }
                },
            }
        }
    }

    /// Stores `asset` as type `ty` under `kind` and `name`. A kind not seen
    /// before gets a map bound to `ty`; otherwise the insert is that of the
    /// kind's map.
    pub fn try_insert_asset(&mut self, kind: &str, ty: TypeKey, name: &str, asset: A) -> (r: Result<
        Option<A>,
        (AssetError, Option<AssetStorage<A>>),
    >)
        requires
            old(self).wf(),
        ensures
            final(self).wf(),
            (insert_view(r), final(self)@) == old(self)@.insert_asset(kind@, ty, name@, asset, r is Ok),
    {
        let key = kind.to_owned();
        match self.map.remove(&key) {
            Some(mut bucket) => {
                let r = bucket.try_insert(ty, name, asset);
                self.map.insert(key, bucket);
                assert(final(self)@.buckets =~= old(self)@.buckets.insert(kind@, bucket@));
                r
            },
            None => {
                let bucket = AssetMap::from_asset(ty, name, asset);
                self.map.insert(key, bucket);
                assert(final(self)@.buckets =~= old(self)@.buckets.insert(kind@, bucket@));
                Ok(None)
            },
        }
    }

    /// A shared handle to the asset under `kind` and `name`, as type `ty`.
    pub fn try_get_asset(&self, kind: &str, ty: TypeKey, name: &str) -> (r: Result<Rc<A>, AssetError>)
        requires
            self.wf(),
        ensures
            match r {
                Ok(handle) => self@.get_asset(kind@, ty, name@) == Ok::<A, AssetErrorView>(*handle),
                Err(e) => self@.get_asset(kind@, ty, name@) == Err::<A, AssetErrorView>(e@),
            },
    {
        let key = kind.to_owned();
        match self.map.get(&key) {
            Some(bucket) => bucket.try_get(ty, name),
            None => Err(AssetError::AssetTypeNotFound(key)),
        }
    }

    /// Takes the asset under `kind` and `name` out of the registry, as an
    /// owned value of type `ty`. Where that fails the registry is as before.
    pub fn try_take_asset(&mut self, kind: &str, ty: TypeKey, name: &str) -> (r: Result<A, AssetError>)
        requires
            old(self).wf(),
        ensures
            final(self).wf(),
            (error_view(r), final(self)@) == old(self)@.take_asset(kind@, ty, name@, r is Ok),
    {
        let key = kind.to_owned();
        match self.map.remove(&key) {
            Some(mut bucket) => {
                let r = bucket.try_take(ty, name);
                self.map.insert(key, bucket);
                assert(final(self)@.buckets =~= old(self)@.buckets.insert(kind@, bucket@));
                r
            },
            None => {
                assert(final(self)@.buckets =~= old(self)@.buckets);
                Err(AssetError::AssetTypeNotFound(key))
            },
        }
    }

    /// Puts `map` under `kind` and hands back the map that was there before.
    pub fn insert_asset_map(&mut self, kind: &str, map: AssetMap<A>) -> (previous: Option<AssetMap<A>>)
        requires
            old(self).wf(),
            map.wf(),
        ensures
            final(self).wf(),
            final(self)@ == old(self)@.with_bucket(kind@, map@),
            match previous {
                Some(p) => p.wf() && old(self)@.buckets.contains_key(kind@) && p@ == old(self)@.buckets[kind@],
                None => !old(self)@.buckets.contains_key(kind@),
            },
    {
        let previous = self.map.insert(kind.to_owned(), map);
        assert(final(self)@.buckets =~= old(self)@.buckets.insert(kind@, map@));
        previous
    }

    /// Puts the values of `map`, as assets of type `ty`, under `kind`, and
    /// hands back the map that was there before.
    pub fn insert_map(&mut self, kind: &str, ty: TypeKey, map: NameMap<A>) -> (previous: Option<AssetMap<A>>)
        requires
            old(self).wf(),
            map.wf(),
        ensures
            final(self).wf(),
            final(self)@ == old(self)@.with_bucket(kind@, AssetMapView { type_id: ty, assets: map@ }),
            match previous {
                Some(p) => p.wf() && old(self)@.buckets.contains_key(kind@) && p@ == old(self)@.buckets[kind@],
                None => !old(self)@.buckets.contains_key(kind@),
            },
    {
        self.insert_asset_map(kind, AssetMap::from_map(ty, map))
    }

    /// Shared handles to all assets of `kind`, as type `ty`.
    pub fn try_get_asset_map(&self, kind: &str, ty: TypeKey) -> (r: Result<NameMap<Rc<A>>, AssetError>)
        requires
            self.wf(),
        ensures
            match r {
                Ok(handles) => {
                    &&& handles.wf()
                    &&& self@.get_asset_map(kind@, ty) matches Ok(assets) && handles_to(handles@, assets)
                },
                Err(e) => self@.get_asset_map(kind@, ty) == Err::<Map<Seq<char>, A>, AssetErrorView>(e@),
            },
    {
        let key = kind.to_owned();
        match self.map.get(&key) {
            Some(bucket) => bucket.try_as(ty),
            None => Err(AssetError::AssetTypeNotFound(key)),
        }
    }

    /// Takes the whole map of `kind` out of the registry, as owned values of
    /// type `ty`. Where an asset cannot be taken, the kind stays in the
    /// registry with all its assets.
    pub fn try_take_asset_map(&mut self, kind: &str, ty: TypeKey) -> (r: Result<NameMap<A>, AssetError>)
        requires
            old(self).wf(),
        ensures
            final(self).wf(),
            match r {
                Ok(values) => values.wf() && old(self)@.take_asset_map(kind@, ty, true) == (
                    Ok::<Map<Seq<char>, A>, AssetErrorView>(values@),
                    final(self)@,
                ),
                Err(e) => old(self)@.take_asset_map(kind@, ty, false) == (
                    Err::<Map<Seq<char>, A>, AssetErrorView>(e@),
                    final(self)@,
                ),
            },
    {
        let key = kind.to_owned();
        match self.map.remove(&key) {
            Some(bucket) => {
                match bucket.try_into(ty) {
                    Ok(values) => {
                        assert(final(self)@.buckets =~= old(self)@.buckets.remove(kind@));
                        Ok(values)
                    },
                    Err((e, back)) => {
                        self.map.insert(key, back);
                        assert(final(self)@.buckets =~= old(self)@.buckets);
                        Err(e)
                    },
                }
            },
            None => {
                assert(final(self)@.buckets =~= old(self)@.buckets);
                Err(AssetError::AssetTypeNotFound(key))
            },
        }
    }
}

/// The registry's operations for a caller who knows that they succeed.
pub trait AssetTypeMapFns<A>: Sized {
    /// What the registry holds.
    spec fn registry(&self) -> AssetTypeMapView<A>;

    /// The registry is well formed.
    spec fn valid(&self) -> bool;

    /// Merges `other` into this registry, kind by kind. Where the two bind
    /// a kind to different types, the merge stops there: the kinds merged
    /// before it stay merged, and the others are as they were.
    fn combine(&mut self, other: Self)
        requires
            old(self).valid(),
            other.valid(),
        ensures
            final(self).valid(),
            old(self).registry().compatible(other.registry()) ==> {
                final(self).registry() == old(self).registry().combined(other.registry())
            },
            !old(self).registry().compatible(other.registry()) ==> {
                old(self).registry().partly_combined(other.registry(), final(self).registry())
            },
    ;

    /// A shared handle to an asset that is there and of type `ty`.
    fn get_asset(&self, kind: &str, ty: TypeKey, name: &str) -> (handle: Rc<A>)
        requires
            self.valid(),
            self.registry().get_asset(kind@, ty, name@) is Ok,
        ensures
            self.registry().get_asset(kind@, ty, name@) == Ok::<A, AssetErrorView>(*handle),
    ;
}

impl<A> AssetTypeMapFns<A> for AssetTypeMap<A> {
    open spec fn registry(&self) -> AssetTypeMapView<A> {
        self@
    }

    open spec fn valid(&self) -> bool {
        self.wf()
    }

    fn combine(&mut self, other: Self) {
        let _ = self.try_combine(other);
    }

    fn get_asset(&self, kind: &str, ty: TypeKey, name: &str) -> (handle: Rc<A>) {
        match self.try_get_asset(kind, ty, name) {
            Ok(handle) => handle,
            Err(_) => vstd::pervasive::unreached(),
        }
    }
}

/// An insert as a type that the map is not bound to fails with `InvalidType`
/// and leaves the map as it was; so does one into a kind of the registry
/// that is bound to another type.
pub proof fn lemma_insert_of_other_type_refused<A>(
    registry: AssetTypeMapView<A>,
    kind: Seq<char>,
    ty: TypeKey,
    name: Seq<char>,
    asset: A,
    unique: bool,
)
    requires
        registry.buckets.contains_key(kind),
        registry.buckets[kind].type_id != ty,
    ensures
        registry.buckets[kind].insert(ty, name, asset, unique) == (
            Err::<Option<A>, (AssetErrorView, Option<StoredAsset<A>>)>((AssetErrorView::InvalidType, None)),
            registry.buckets[kind],
        ),
        registry.insert_asset(kind, ty, name, asset, unique) == (
            Err::<Option<A>, (AssetErrorView, Option<StoredAsset<A>>)>((AssetErrorView::InvalidType, None)),
            registry,
        ),
{
    assert(registry.buckets.insert(kind, registry.buckets[kind]) =~= registry.buckets);
}

/// An insert under a name that is taken, as the type of the kind and with no
/// shared handle to the old asset alive, hands back the old asset; the new
/// one is then to be had under that name.
pub proof fn lemma_insert_returns_previous<A>(
    registry: AssetTypeMapView<A>,
    kind: Seq<char>,
    ty: TypeKey,
    name: Seq<char>,
    asset: A,
)
    requires
        registry.buckets.contains_key(kind),
        registry.buckets[kind].type_id == ty,
        registry.buckets[kind].assets.contains_key(name),
    ensures
        registry.insert_asset(kind, ty, name, asset, true).0 == Ok::<
            Option<A>,
            (AssetErrorView, Option<StoredAsset<A>>),
        >(Some(registry.buckets[kind].assets[name])),
        registry.insert_asset(kind, ty, name, asset, true).1.get_asset(kind, ty, name) == Ok::<A, AssetErrorView>(
            asset,
        ),
{
}

/// A get under a kind that the registry lacks fails with `AssetTypeNotFound`;
/// under a kind that it has, but a name that the kind lacks, with
/// `AssetNotFound`.
pub proof fn lemma_missing_kind_or_name<A>(registry: AssetTypeMapView<A>, kind: Seq<char>, ty: TypeKey, name: Seq<char>)
    ensures
        !registry.buckets.contains_key(kind) ==> registry.get_asset(kind, ty, name) == Err::<A, AssetErrorView>(
            AssetErrorView::AssetTypeNotFound(kind),
        ),
        registry.buckets.contains_key(kind) && !registry.buckets[kind].assets.contains_key(name)
            ==> registry.get_asset(kind, ty, name) == Err::<A, AssetErrorView>(AssetErrorView::AssetNotFound(name)),
{
}

} // verus!
