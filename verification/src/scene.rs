//! What a scene is given when it opens: the registry of assets, in which it
//! places its instances.

use crate::error::AssetError;
use crate::storage::TypeKey;
use crate::type_map::AssetTypeMap;
use vstd::prelude::*;

verus! {

/// The registry of assets as a scene sees it.
#[derive(Debug)]
pub struct SceneBuilder<A> {
    pub assets: AssetTypeMap<A>,
}

impl<A> SceneBuilder<A> {
    /// The builder of a scene on `assets`.
    pub fn new(assets: AssetTypeMap<A>) -> (b: Self)
        ensures
            b.assets == assets,
    {
        SceneBuilder { assets }
    }

    /// Takes the asset under `kind` and `name` out of the registry, as type
    /// `ty`, so that the scene can add an instance to it; [`Self::put_back`]
    /// returns it. Where the take fails the registry is as before.
    pub fn take_for_instance(&mut self, kind: &str, ty: TypeKey, name: &str) -> (r: Result<A, AssetError>)
        requires
            old(self).assets.wf(),
        ensures
            final(self).assets.wf(),
            (crate::asset_map::error_view(r), final(self).assets@) == old(self).assets@.take_asset(
                kind@,
                ty,
                name@,
                r is Ok,
            ),
    {
        self.assets.try_take_asset(kind, ty, name)
    }

    /// Puts an asset that was taken for an instance back under its name.
    /// Answers whether the registry took it: it does not where the kind is
    /// bound to another type.
    pub fn put_back(&mut self, kind: &str, ty: TypeKey, name: &str, asset: A) -> (stored: bool)
        requires
            old(self).assets.wf(),
        ensures
            final(self).assets.wf(),
            stored == (old(self).assets@.buckets.contains_key(kind@) ==> old(self).assets@.buckets[kind@].type_id
                == ty),
            final(self).assets@ == old(self).assets@.insert_asset(kind@, ty, name@, asset, true).1,
    {
        match self.assets.try_insert_asset(kind, ty, name, asset) {
            Ok(_) => true,
            Err((e, _)) => match e {
                AssetError::InvalidType => false,
                _ => true,
            },
        }
    }
}

/// The scene that does nothing: it hands the registry back as it got it.
pub fn default_scene<A>(builder: SceneBuilder<A>) -> (assets: AssetTypeMap<A>)
    ensures
        assets == builder.assets,
{
    builder.assets
}

} // verus!
