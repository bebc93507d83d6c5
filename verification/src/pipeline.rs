//! Writing the assets of all kinds as one table of bytes, and reading such a
//! table back into a registry, through one mapper per kind of asset.

use crate::asset_map::AssetMap;
use crate::codec::{
    all_records_wf, bincode_decoding, bincode_encoding, decode_table, encode_table, lists_table, table_model, table_of,
    BincodeAssetMap, BincodeAssetTypeMap, PipelineError,
};
use crate::name_map::NameMap;
use crate::type_map::AssetTypeMap;
use vstd::prelude::*;

verus! {

/// What one kind of asset brings to the pipeline: it holds the raw records of
/// its kind, gives and takes them in encoded form, and makes assets of them.
pub trait RawAssetMapper: Sized {
    /// The assets that the mapper makes.
    type Asset;

    /// What the mapper needs to make them.
    type Builder;

    /// Makes an asset of every raw record.
    fn to_asset_map(self, builder: &Self::Builder) -> (assets: AssetMap<Self::Asset>)
        ensures
            assets.wf(),
    ;

    /// Replaces the raw records by those that `bin_map` holds in encoded
    /// form. Answers `false` where one of them cannot be read.
    fn load_bin_map(&mut self, bin_map: BincodeAssetMap) -> (loaded: bool)
        requires
            bin_map.wf(),
    ;

    /// The raw records in encoded form.
    fn to_bin_map(self) -> (bin_map: BincodeAssetMap)
        ensures
            bin_map.wf(),
    ;
}

/// Collects the records of the registered mappers and writes them as one table.
pub struct Serializer<M> {
    mappers: NameMap<M>,
    out_path: Option<String>,
    asset_directory: Option<String>,
}

impl<M> Serializer<M> {
    /// The mappers are well formed as a map.
    pub closed spec fn wf(&self) -> bool {
        self.mappers.wf()
    }

    /// The registered mappers, by kind.
    pub closed spec fn mappers(&self) -> Map<Seq<char>, M> {
        self.mappers@
    }

    /// The directory to write to, if one was set.
    pub closed spec fn out_path(&self) -> Option<String> {
        self.out_path
    }

    /// The directory to read raw assets from, if one was set.
    pub closed spec fn asset_directory(&self) -> Option<String> {
        self.asset_directory
    }

    /// A serializer without mappers and with no directory set.
    pub fn new() -> (s: Self)
        ensures
            s.wf(),
            s.mappers() == Map::<Seq<char>, M>::empty(),
            s.out_path() is None,
            s.asset_directory() is None,
    {
        Serializer { mappers: NameMap::new(), out_path: None, asset_directory: None }
    }

    /// Registers `mapper` for `kind`, in place of an earlier one for that kind.
    pub fn with_mapper(self, kind: &str, mapper: M) -> (s: Self)
        requires
            self.wf(),
        ensures
            s.wf(),
            s.mappers() == self.mappers().insert(kind@, mapper),
            s.out_path() == self.out_path(),
            s.asset_directory() == self.asset_directory(),
    {
        let mut mappers = self.mappers;
        mappers.insert(kind.to_owned(), mapper);
        Serializer { mappers, out_path: self.out_path, asset_directory: self.asset_directory }
    }

    /// Sets the directory to write to.
    pub fn with_out_path(self, path: String) -> (s: Self)
        requires
            self.wf(),
        ensures
            s.wf(),
            s.mappers() == self.mappers(),
            s.out_path() == Some(path),
            s.asset_directory() == self.asset_directory(),
    {
        Serializer { mappers: self.mappers, out_path: Some(path), asset_directory: self.asset_directory }
    }

    /// Sets the directory to read raw assets from.
    pub fn with_asset_directory(self, path: String) -> (s: Self)
        requires
            self.wf(),
        ensures
            s.wf(),
            s.mappers() == self.mappers(),
            s.out_path() == self.out_path(),
            s.asset_directory() == Some(path),
    {
        Serializer { mappers: self.mappers, out_path: self.out_path, asset_directory: Some(path) }
    }

    /// The directory to write to: the one that was set, else `./`.
    pub fn out_directory(&self) -> (path: String)
        ensures
            path@ == match self.out_path() {
                Some(set) => set@,
                None => "./"@,
            },
    {
        match &self.out_path {
            Some(set) => set.clone(),
            None => "./".to_owned(),
        }
    }

    /// The directory to read raw assets from: the one that was set, else `./assets/`.
    pub fn in_directory(&self) -> (path: String)
        ensures
            path@ == match self.asset_directory() {
                Some(set) => set@,
                None => "./assets/"@,
            },
    {
        match &self.asset_directory {
            Some(set) => set.clone(),
            None => "./assets/".to_owned(),
        }
    }
}

impl<M: RawAssetMapper> Serializer<M> {
    /// `table` holds under the kind of each registered mapper, and under no
    /// other, records that the mapper gave.
    pub open spec fn collects(&self, table: Map<Seq<char>, NameMap<Vec<u8>>>) -> bool {
        &&& table.dom() == self.mappers().dom()
        &&& forall|kind: Seq<char>| #[trigger]
            table.contains_key(kind) ==> M::to_bin_map.ensures((self.mappers()[kind],), table[kind])
    }

    /// The table of the encoded records of every registered mapper, by kind.
    #[verifier::loop_isolation(false)]
    pub fn collect(self) -> (table: BincodeAssetTypeMap)
        requires
            self.wf(),
        ensures
            table.wf(),
            all_records_wf(table@),
            self.collects(table@),
    {
        let ghost all = self.mappers@;
        let mut rest = self.mappers;
        let mut table: BincodeAssetTypeMap = NameMap::new();
        loop
            invariant
                rest.wf(),
                table.wf(),
                all_records_wf(table@),
                forall|kind: Seq<char>| #[trigger]
                    rest@.contains_key(kind) ==> all.contains_key(kind) && rest@[kind] == all[kind],
                forall|kind: Seq<char>| #[trigger]
                    table@.contains_key(kind) ==> all.contains_key(kind) && !rest@.contains_key(kind)
                        && M::to_bin_map.ensures((all[kind],), table@[kind]),
                forall|kind: Seq<char>| #[trigger]
                    all.contains_key(kind) ==> rest@.contains_key(kind) || table@.contains_key(kind),
            decreases rest.entries().len(),
        {
            match rest.pop() {
                None => {
                    assert(table@.dom() =~= all.dom());
                    return table;
                },
                Some((kind, mapper)) => {
                    table.insert(kind, mapper.to_bin_map());
                },
            }
        }
    }

    /// The bytes of the table of all registered mappers' records: bincode's
    /// encoding of a list that names each kind of a mapper once and, under
    /// it, once each record that the mapper gave.
    pub fn serialize(self) -> (bytes: Vec<u8>)
        requires
            self.wf(),
        ensures
            exists|list: Seq<(Seq<char>, Seq<(Seq<char>, Seq<u8>)>)>, collected: Map<Seq<char>, NameMap<Vec<u8>>>|
                {
                    &&& #[trigger] lists_table(list, table_of(collected))
                    &&& self.collects(collected)
                    &&& bytes@ == bincode_encoding(list)
                },
    {
        let table = self.collect();
        encode_table(table)
    }
}

/// Reads a table of bytes and has the registered mappers make assets of it.
pub struct Deserializer<M> {
    mappers: NameMap<M>,
    panic: bool,
}

impl<M> Deserializer<M> {
    /// The mappers are well formed as a map.
    pub closed spec fn wf(&self) -> bool {
        self.mappers.wf()
    }

    /// The registered mappers, by kind.
    pub closed spec fn mappers(&self) -> Map<Seq<char>, M> {
        self.mappers@
    }

    /// Whether a kind in the table without a mapper is an error.
    pub closed spec fn strict(&self) -> bool {
        self.panic
    }

    /// A deserializer without mappers, for which a kind without a mapper is an error.
    pub fn new() -> (d: Self)
        ensures
            d.wf(),
            d.mappers() == Map::<Seq<char>, M>::empty(),
            d.strict(),
    {
        Deserializer { mappers: NameMap::new(), panic: true }
    }

    /// Registers `mapper` for `kind`, in place of an earlier one for that kind.
    pub fn with_mapper(self, kind: &str, mapper: M) -> (d: Self)
        requires
            self.wf(),
        ensures
            d.wf(),
            d.mappers() == self.mappers().insert(kind@, mapper),
            d.strict() == self.strict(),
    {
        let mut mappers = self.mappers;
        mappers.insert(kind.to_owned(), mapper);
        Deserializer { mappers, panic: self.panic }
    }

    /// Says whether a kind in the table without a mapper is an error.
    pub fn with_panic(self, enabled: bool) -> (d: Self)
        requires
            self.wf(),
        ensures
            d.wf(),
            d.mappers() == self.mappers(),
            d.strict() == enabled,
    {
        Deserializer { mappers: self.mappers, panic: enabled }
    }

    /// What is to be said once every mapper has had its kind: `unconsumed`
    /// tells whether the table still holds a kind.
    pub fn settle(strict: bool, unconsumed: bool) -> (r: Result<(), PipelineError>)
        ensures
            r == if strict && unconsumed {
                Err::<(), PipelineError>(PipelineError::MapperMissing)
            } else {
                Ok::<(), PipelineError>(())
            },
    {
        if strict && unconsumed {
            Err(PipelineError::MapperMissing)
        } else {
            Ok(())
        }
    }
}

impl<M: RawAssetMapper> Deserializer<M> {
    /// Hands each registered mapper the records of its kind, if the table
    /// has that kind, and puts the assets that it makes of them under the
    /// kind. It fails with `BinaryDecode` as soon as a mapper cannot read its
    /// records, and with `MapperMissing` if afterwards a kind is left in the
    /// table and that is to be an error.
    #[verifier::loop_isolation(false)]
    pub fn convert(self, table: BincodeAssetTypeMap, builder: &M::Builder) -> (r: Result<
        AssetTypeMap<M::Asset>,
        PipelineError,
    >)
        requires
            self.wf(),
            table.wf(),
            all_records_wf(table@),
        ensures
            match r {
                Ok(registry) => {
                    &&& registry.wf()
                    &&& registry@.buckets.dom() == self.mappers().dom().intersect(table@.dom())
                    &&& self.strict() ==> table@.dom().subset_of(self.mappers().dom())
                    &&& forall|kind: Seq<char>| #[trigger]
                        registry@.buckets.contains_key(kind) ==> exists|mapper: &mut M, made: AssetMap<M::Asset>|
                            {
                                &&& mut_ref_current(mapper) == self.mappers()[kind]
                                &&& #[trigger] M::load_bin_map.ensures((mapper, table@[kind]), true)
                                &&& #[trigger] M::to_asset_map.ensures((mut_ref_future(mapper), builder), made)
                                &&& made@ == registry@.buckets[kind]
                            }
                },
                Err(PipelineError::MapperMissing) => self.strict() && !table@.dom().subset_of(self.mappers().dom()),
                Err(PipelineError::BinaryDecode) => exists|kind: Seq<char>, mapper: &mut M|
                    {
                        &&& self.mappers().contains_key(kind)
                        &&& table@.contains_key(kind)
                        &&& mut_ref_current(mapper) == self.mappers()[kind]
                        &&& #[trigger] M::load_bin_map.ensures((mapper, table@[kind]), false)
                    },
            },
    {
        let ghost all = self.mappers@;
        let ghost whole = table@;
        let strict = self.panic;
        let mut rest = self.mappers;
        let mut left = table;
        let mut registry: AssetTypeMap<M::Asset> = AssetTypeMap::new();
        loop
            invariant
                rest.wf(),
                left.wf(),
                all_records_wf(left@),
                registry.wf(),
                forall|kind: Seq<char>| #[trigger]
                    rest@.contains_key(kind) ==> all.contains_key(kind) && rest@[kind] == all[kind],
                forall|kind: Seq<char>| #[trigger]
                    left@.contains_key(kind) ==> whole.contains_key(kind) && left@[kind] == whole[kind],
                forall|kind: Seq<char>| #[trigger]
                    whole.contains_key(kind) ==> left@.contains_key(kind) || (all.contains_key(kind)
                        && !rest@.contains_key(kind)),
                forall|kind: Seq<char>| #[trigger]
                    all.contains_key(kind) && !rest@.contains_key(kind) ==> !left@.contains_key(kind),
                forall|kind: Seq<char>| #[trigger]
                    registry@.buckets.contains_key(kind) ==> {
                        &&& all.contains_key(kind)
                        &&& whole.contains_key(kind)
                        &&& !rest@.contains_key(kind)
                        &&& exists|mapper: &mut M, made: AssetMap<M::Asset>|
                            {
                                &&& mut_ref_current(mapper) == all[kind]
                                &&& #[trigger] M::load_bin_map.ensures((mapper, whole[kind]), true)
                                &&& #[trigger] M::to_asset_map.ensures((mut_ref_future(mapper), builder), made)
                                &&& made@ == registry@.buckets[kind]
                            }
                    },
                forall|kind: Seq<char>| #[trigger]
                    all.contains_key(kind) && whole.contains_key(kind) ==> rest@.contains_key(kind)
                        || registry@.buckets.contains_key(kind),
            decreases rest.entries().len(),
        {
            match rest.pop() {
                None => {
                    break ;
                },
                Some((kind, mapper)) => {
                    let mut mapper = mapper;
                    let ghost before = registry@;
                    match left.remove(&kind) {
                        None => {},
                        Some(bin_map) => {
                            proof {
                                assert(all.contains_key(kind@) && whole.contains_key(kind@));
                            }
                            let loaded = mapper.load_bin_map(bin_map);
                            assert(exists|h: &mut M|
                                mut_ref_current(h) == all[kind@] && #[trigger] M::load_bin_map.ensures(
                                    (h, whole[kind@]),
                                    loaded,
                                ) && mut_ref_future(h) == mapper);
                            if !loaded {
                                return Err(PipelineError::BinaryDecode);
                            }
                            let made = mapper.to_asset_map(builder);
                            let ghost made_at = made;
                            let _ = registry.insert_asset_map(kind.as_str(), made);
                            proof {
                                let h = choose|h: &mut M|
                                    mut_ref_current(h) == all[kind@] && #[trigger] M::load_bin_map.ensures(
                                        (h, whole[kind@]),
                                        true,
                                    ) && mut_ref_future(h) == mapper;
                                assert(M::to_asset_map.ensures((mut_ref_future(h), builder), made_at));
                                assert(registry@.buckets[kind@] == made_at@);
                                assert forall|other: Seq<char>| #[trigger]
                                    registry@.buckets.contains_key(other) && other != kind@ implies before.buckets.contains_key(
                                    other,
                                ) && registry@.buckets[other] == before.buckets[other] by {}
                            }
                        },
                    }
                },
            }
        }
        let unconsumed = !left.is_empty();
        proof {
            assert(registry@.buckets.dom() =~= all.dom().intersect(whole.dom()));
            if unconsumed {
                let kind = left.entries()[0].0@;
                crate::name_map::lemma_nonempty(left.entries());
                assert(left@.contains_key(kind));
                assert(whole.dom().contains(kind) && !all.dom().contains(kind));
            } else {
                assert forall|kind: Seq<char>| whole.dom().contains(kind) implies all.dom().contains(kind) by {
                    assert(whole.contains_key(kind));
                }
            }
        }
        match Self::settle(strict, unconsumed) {
            Ok(()) => Ok(registry),
            Err(e) => Err(e),
        }
    }

    /// Reads the table from `bin` and converts it: the answer is that of
    /// [`Self::convert`] on the table that the bytes stand for. It fails with
    /// `BinaryDecode` where the bytes are not a table; the bytes that were
    /// written for a list are one, and stand for that list.
    pub fn deserialize(self, bin: &[u8], builder: &M::Builder) -> (r: Result<AssetTypeMap<M::Asset>, PipelineError>)
        requires
            self.wf(),
        ensures
            match bincode_decoding(bin@) {
                Some(list) => exists|table: BincodeAssetTypeMap|
                    {
                        &&& table.wf()
                        &&& all_records_wf(table@)
                        &&& table_of(table@) == table_model(list)
                        &&& #[trigger] Self::convert.ensures((self, table, builder), r)
                    },
                None => r == Err::<AssetTypeMap<M::Asset>, PipelineError>(PipelineError::BinaryDecode),
            },
            forall|list: Seq<(Seq<char>, Seq<(Seq<char>, Seq<u8>)>)>|
                bin@ == #[trigger] bincode_encoding(list) ==> bincode_decoding(bin@) == Some(list),
    {
        match decode_table(bin) {
            Ok(table) => self.convert(table, builder),
            Err(e) => Err(e),
        }
    }
}

} // verus!
