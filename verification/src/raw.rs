//! Raw asset records: what a kind of asset is before assets are made of it.
//! The helpers here do for any kind of record what each mapper needs: choose
//! the files of the kind and name them, encode and decode the records of a
//! map, and make the assets.

use crate::asset_map::AssetMap;
use crate::codec::BincodeAssetMap;
use crate::name_map::NameMap;
use crate::storage::TypeKey;
use vstd::prelude::*;

verus! {

/// A raw record of one kind of asset.
pub trait RawAsset: Sized {
    /// The asset that is made of the record.
    type Asset;

    /// What is needed to make it.
    type Builder;

    /// Encodes the record; `None` where it cannot be encoded.
    fn to_bytes(&self) -> (bytes: Option<Vec<u8>>);

    /// Decodes a record; `None` where the bytes are none.
    fn from_bytes(bytes: &Vec<u8>) -> (record: Option<Self>);

    /// Makes the asset of the record.
    fn to_asset(self, builder: &Self::Builder) -> (asset: Self::Asset);
}

/// `bin` holds under each name of `records`, and under no other, bytes that
/// encoding the record gave.
pub open spec fn encodes_to<R: RawAsset>(records: Map<Seq<char>, R>, bin: Map<Seq<char>, Vec<u8>>) -> bool {
    &&& bin.dom() == records.dom()
    &&& forall|name: Seq<char>| #[trigger]
        records.contains_key(name) ==> R::to_bytes.ensures((&records[name],), Some(bin[name]))
}

/// Encoding refused a record of `records`.
pub open spec fn encoding_fails<R: RawAsset>(records: Map<Seq<char>, R>) -> bool {
    exists|name: Seq<char>| #[trigger]
        records.contains_key(name) && R::to_bytes.ensures((&records[name],), None::<Vec<u8>>)
}

/// `records` holds under each name of `bin`, and under no other, a record
/// that decoding the bytes gave.
pub open spec fn decodes_to<R: RawAsset>(bin: Map<Seq<char>, Vec<u8>>, records: Map<Seq<char>, R>) -> bool {
    &&& records.dom() == bin.dom()
    &&& forall|name: Seq<char>| #[trigger]
        bin.contains_key(name) ==> R::from_bytes.ensures((&bin[name],), Some(records[name]))
}

/// Decoding refused the bytes of a record of `bin`.
pub open spec fn decoding_fails<R: RawAsset>(bin: Map<Seq<char>, Vec<u8>>) -> bool {
    exists|name: Seq<char>| #[trigger] bin.contains_key(name) && R::from_bytes.ensures((&bin[name],), None::<R>)
}

/// `assets` holds under each name of `records`, and under no other, an asset
/// that was made of the record with `builder`.
pub open spec fn makes<R: RawAsset>(records: Map<Seq<char>, R>, builder: &R::Builder, assets: Map<Seq<char>, R::Asset>) -> bool {
    &&& assets.dom() == records.dom()
    &&& forall|name: Seq<char>| #[trigger]
        records.contains_key(name) ==> R::to_asset.ensures((records[name], builder), assets[name])
}

/// Whatever bytes encoding gives for a record of `records`, decoding them
/// gives the record back.
pub open spec fn decoding_inverts<R: RawAsset>(records: Map<Seq<char>, R>) -> bool {
    forall|name: Seq<char>, bytes: Vec<u8>, back: Option<R>|
        #![trigger R::to_bytes.ensures((&records[name],), Some(bytes)), R::from_bytes.ensures((&bytes,), back)]
        records.contains_key(name) && R::to_bytes.ensures((&records[name],), Some(bytes)) && R::from_bytes.ensures(
            (&bytes,),
            back,
        ) ==> back == Some(records[name])
}

/// Where decoding gives back each record from its encoding, a map of records
/// that is encoded and decoded again is the map that it was.
pub proof fn lemma_records_round_trip<R: RawAsset>(
    records: Map<Seq<char>, R>,
    bin: Map<Seq<char>, Vec<u8>>,
    back: Map<Seq<char>, R>,
)
    requires
        decoding_inverts(records),
        encodes_to(records, bin),
        decodes_to(bin, back),
    ensures
        back == records,
{
    assert forall|name: Seq<char>| #[trigger] records.contains_key(name) implies back[name] == records[name] by {
        assert(bin.dom().contains(name));
        assert(bin.contains_key(name));
        assert(R::to_bytes.ensures((&records[name],), Some(bin[name])));
        assert(R::from_bytes.ensures((&bin[name],), Some(back[name])));
    }
    assert(back =~= records);
}

/// A file that a search found: its path, and the extension and the stem of
/// its file name, where it has them.
#[derive(Debug, PartialEq, Eq)]
pub struct FoundFile {
    pub path: String,
    pub extension: Option<String>,
    pub stem: Option<String>,
}

/// A [`FoundFile`] by its characters.
pub struct FoundFileView {
    pub path: Seq<char>,
    pub extension: Option<Seq<char>>,
    pub stem: Option<Seq<char>>,
}

/// An optional string as its characters.
pub open spec fn option_view(s: Option<String>) -> Option<Seq<char>> {
    match s {
        Some(s) => Some(s@),
        None => None,
    }
}

impl View for FoundFile {
    type V = FoundFileView;

    open spec fn view(&self) -> FoundFileView {
        FoundFileView {
            path: self.path@,
            extension: option_view(self.extension),
            stem: option_view(self.stem),
        }
    }
}

/// A piece of a file name that every platform reads alike: it is not empty
/// and holds no separator, no colon and no dot.
pub open spec fn plain_part(s: Seq<char>) -> bool {
    &&& s.len() > 0
    &&& forall|i: int|
        0 <= i < s.len() ==> (#[trigger] s[i]) != '/' && s[i] != '\\' && s[i] != ':' && s[i] != '.'
}

/// The part of a path before the file name, where every platform splits it
/// at `/` alone: it is empty or ends in `/`, does not begin with `//`, and
/// holds no `\` and no colon.
pub open spec fn plain_dir(s: Seq<char>) -> bool {
    &&& s.len() > 0 ==> s[s.len() - 1] == '/'
    &&& s.len() >= 2 ==> !(s[0] == '/' && s[1] == '/')
    &&& forall|i: int| 0 <= i < s.len() ==> (#[trigger] s[i]) != '\\' && s[i] != ':'
}

/// `path` is `dir`, then `stem`, a dot and `ext`, each of them plain.
pub open spec fn plain_file(path: Seq<char>, dir: Seq<char>, stem: Seq<char>, ext: Seq<char>) -> bool {
    &&& path == dir + stem + seq!['.'] + ext
    &&& plain_dir(dir)
    &&& plain_part(stem)
    &&& plain_part(ext)
}

/// A plain path is read in one way only: its last dot parts the extension
/// from the stem, and its last `/` before that the stem from what is before.
pub proof fn lemma_plain_file_is_read_one_way(
    path: Seq<char>,
    dir: Seq<char>,
    stem: Seq<char>,
    ext: Seq<char>,
    dir2: Seq<char>,
    stem2: Seq<char>,
    ext2: Seq<char>,
)
    requires
        plain_file(path, dir, stem, ext),
        plain_file(path, dir2, stem2, ext2),
    ensures
        dir == dir2,
        stem == stem2,
        ext == ext2,
{
    let dot = dir.len() + stem.len();
    let dot2 = dir2.len() + stem2.len();
    assert(path.len() == dot + 1 + ext.len());
    assert(path.len() == dot2 + 1 + ext2.len());
    assert(path[dot as int] == '.');
    assert(path[dot2 as int] == '.');
    if dot < dot2 {
        assert(path[dot2 as int] == ext[dot2 - dot - 1]);
    }
    if dot2 < dot {
        assert(path[dot as int] == ext2[dot - dot2 - 1]);
    }
    assert(dot == dot2);
    if dir.len() < dir2.len() {
        assert(path[dir2.len() - 1] == dir2[dir2.len() - 1]);
        assert(path[dir2.len() - 1] == stem[dir2.len() - 1 - dir.len()]);
    }
    if dir2.len() < dir.len() {
        assert(path[dir.len() - 1] == dir[dir.len() - 1]);
        assert(path[dir.len() - 1] == stem2[dir.len() - 1 - dir2.len()]);
    }
    assert(dir.len() == dir2.len());
    assert forall|i: int| 0 <= i < dir.len() implies dir[i] == dir2[i] by {
        assert(path[i] == dir[i] && path[i] == dir2[i]);
    }
    assert forall|i: int| 0 <= i < stem.len() implies stem[i] == stem2[i] by {
        assert(path[dir.len() + i] == stem[i] && path[dir.len() + i] == stem2[i]);
    }
    assert forall|i: int| 0 <= i < ext.len() implies ext[i] == ext2[i] by {
        assert(path[dot + 1 + i] == ext[i] && path[dot + 1 + i] == ext2[i]);
    }
    assert(dir =~= dir2);
    assert(stem =~= stem2);
    assert(ext =~= ext2);
}

/// `std::path::Path::extension` on a path that is text: the part of the
/// file name behind its last dot. Where a path's file name begins depends
/// on the platform, so the answer is claimed for plain paths only: there
/// the file name is what follows the last `/`.
#[verifier::external_body]
fn extension_of(path: &str) -> (r: Option<String>)
    ensures
        forall|dir: Seq<char>, stem: Seq<char>, ext: Seq<char>| #[trigger]
            plain_file(path@, dir, stem, ext) ==> option_view(r) == Some(ext),
{
    match std::path::Path::new(path).extension() {
        Some(found) => match found.to_str() {
            Some(text) => Some(text.to_owned()),
            None => None,
        },
        None => None,
    }
}

/// `std::path::Path::file_stem` on a path that is text: the file name
/// before its last dot. The answer is claimed for plain paths only, as for
/// the extension.
#[verifier::external_body]
fn file_stem_of(path: &str) -> (r: Option<String>)
    ensures
        forall|dir: Seq<char>, stem: Seq<char>, ext: Seq<char>| #[trigger]
            plain_file(path@, dir, stem, ext) ==> option_view(r) == Some(stem),
{
    match std::path::Path::new(path).file_stem() {
        Some(found) => match found.to_str() {
            Some(text) => Some(text.to_owned()),
            None => None,
        },
        None => None,
    }
}

/// Whether a file with extension `found` is a file of extension `wanted`:
/// the two are the same, letter for letter; a file without extension counts
/// as one with the empty extension.
pub open spec fn extension_matches(found: Option<Seq<char>>, wanted: Seq<char>) -> bool {
    match found {
        Some(e) => e == wanted,
        None => wanted == Seq::<char>::empty(),
    }
}

/// The name under which a file is kept, if it is of extension `wanted`: the
/// stem of its file name.
pub open spec fn asset_name(found: Option<Seq<char>>, stem: Option<Seq<char>>, wanted: Seq<char>) -> Option<
    Seq<char>,
> {
    if extension_matches(found, wanted) {
        stem
    } else {
        None
    }
}

/// The paths of the files of extension `wanted` among `files`, by name.
/// Where two files have the same name, the later one in `files` stays.
pub open spec fn files_by_name(files: Seq<FoundFileView>, wanted: Seq<char>) -> Map<Seq<char>, Seq<char>>
    decreases files.len(),
{
    if files.len() == 0 {
        Map::empty()
    } else {
        let later = files_by_name(files.drop_first(), wanted);
        match asset_name(files[0].extension, files[0].stem, wanted) {
            Some(name) => if later.contains_key(name) {
                later
            } else {
                later.insert(name, files[0].path)
            },
            None => later,
        }
    }
}

/// The files of a list by their characters.
pub open spec fn found_view(files: Seq<FoundFile>) -> Seq<FoundFileView> {
    Seq::new(files.len(), |i: int| files[i]@)
}

/// The paths in a map of files, as sequences of characters.
pub open spec fn files_view(files: Map<Seq<char>, String>) -> Map<Seq<char>, Seq<char>> {
    Map::new(|name: Seq<char>| files.contains_key(name), |name: Seq<char>| files[name]@)
}

/// `file` has the extension and the stem of its path, if the path is plain.
pub open spec fn reads_plain_path(file: FoundFileView) -> bool {
    forall|dir: Seq<char>, stem: Seq<char>, ext: Seq<char>| #[trigger]
        plain_file(file.path, dir, stem, ext) ==> file.extension == Some(ext) && file.stem == Some(stem)
}

/// `found` holds one file for each path of `paths`, in their order, and each
/// plain path with its extension and stem.
pub open spec fn found_at(found: Seq<FoundFileView>, paths: Seq<String>) -> bool {
    &&& found.len() == paths.len()
    &&& forall|i: int| 0 <= i < found.len() ==> (#[trigger] found[i]).path == paths[i]@ && reads_plain_path(found[i])
}

/// The file at position `j` of `files` is of extension `wanted` and is called `name`.
pub open spec fn names_file(files: Seq<FoundFileView>, wanted: Seq<char>, j: int, name: Seq<char>) -> bool {
    0 <= j < files.len() && asset_name(files[j].extension, files[j].stem, wanted) == Some(name)
}

/// The chosen files have the names of the files of the wanted extension,
/// and under each name the path of a file of that name.
pub proof fn lemma_files_by_name(files: Seq<FoundFileView>, wanted: Seq<char>)
    ensures
        forall|j: int, name: Seq<char>| #[trigger]
            names_file(files, wanted, j, name) ==> files_by_name(files, wanted).contains_key(name),
        forall|name: Seq<char>| #[trigger]
            files_by_name(files, wanted).contains_key(name) ==> exists|j: int| #[trigger]
                names_file(files, wanted, j, name) && files_by_name(files, wanted)[name] == files[j].path,
    decreases files.len(),
{
    if files.len() > 0 {
        let rest = files.drop_first();
        let later = files_by_name(rest, wanted);
        let all = files_by_name(files, wanted);
        lemma_files_by_name(rest, wanted);
        assert forall|j: int, name: Seq<char>| #[trigger] names_file(files, wanted, j, name) implies all.contains_key(
            name,
        ) by {
            if j > 0 {
                assert(rest[j - 1] == files[j]);
                assert(names_file(rest, wanted, j - 1, name));
            }
        }
        assert forall|name: Seq<char>| #[trigger] all.contains_key(name) implies exists|j: int| #[trigger]
            names_file(files, wanted, j, name) && all[name] == files[j].path by {
            if later.contains_key(name) {
                let j = choose|j: int| #[trigger] names_file(rest, wanted, j, name) && later[name] == rest[j].path;
                assert(rest[j] == files[j + 1]);
                assert(names_file(files, wanted, j + 1, name) && all[name] == files[j + 1].path);
            } else {
                assert(names_file(files, wanted, 0, name) && all[name] == files[0].path);
            }
        }
    }
}

/// The file at `path`, with the extension and the stem that the platform
/// finds in the path.
pub fn found_file(path: &str) -> (file: FoundFile)
    ensures
        file@.path == path@,
        reads_plain_path(file@),
{
    FoundFile { path: path.to_owned(), extension: extension_of(path), stem: file_stem_of(path) }
}

/// Whether a file with extension `found` is a file of extension `wanted`.
pub fn extension_is(found: &Option<String>, wanted: &str) -> (matches: bool)
    ensures
        matches == extension_matches(option_view(*found), wanted@),
{
    let wanted_owned = wanted.to_owned();
    match found {
        Some(e) => *e == wanted_owned,
        None => wanted_owned == String::new(),
    }
}

/// Decides from a file's extension and stem whether it is of extension
/// `wanted`, and under which name it is kept.
pub fn name_for(found: &Option<String>, stem: &Option<String>, wanted: &str) -> (name: Option<String>)
    ensures
        option_view(name) == asset_name(option_view(*found), option_view(*stem), wanted@),
{
    if extension_is(found, wanted) {
        match stem {
            Some(s) => Some(s.clone()),
            None => None,
        }
    } else {
        None
    }
}

/// Chooses among `files` those of extension `ext` and keeps the path of
/// each under the stem of its file name.
#[verifier::loop_isolation(false)]
pub fn select_files(files: &Vec<FoundFile>, ext: &str) -> (chosen: NameMap<String>)
    ensures
        chosen.wf(),
        files_view(chosen@) == files_by_name(found_view(files@), ext@),
{
    let ghost whole = found_view(files@);
    let mut chosen: NameMap<String> = NameMap::new();
    let mut i: usize = files.len();
    assert(whole.subrange(i as int, whole.len() as int) =~= Seq::empty());
    assert(files_view(chosen@) =~= files_by_name(Seq::empty(), ext@));
    while i > 0
        invariant
            chosen.wf(),
            i <= files@.len(),
            whole.len() == files@.len(),
            files_view(chosen@) == files_by_name(whole.subrange(i as int, whole.len() as int), ext@),
        decreases i,
    {
        i -= 1;
        let ghost held = chosen@;
        let file = &files[i];
        proof {
            let tail = whole.subrange(i as int, whole.len() as int);
            assert(tail.drop_first() =~= whole.subrange(i + 1, whole.len() as int));
            assert(tail[0] == file@);
        }
        match name_for(&file.extension, &file.stem, ext) {
            Some(name) => {
                if !chosen.contains_key(&name) {
                    chosen.insert(name, file.path.clone());
                    assert(files_view(chosen@) =~= files_view(held).insert(name@, file.path@));
                }
            },
            None => {},
        }
    }
    assert(whole.subrange(0, whole.len() as int) =~= whole);
    chosen
}

/// Chooses among the files at `paths` those of extension `ext` and keeps the
/// path of each under the stem of its file name: [`select_files`] on the
/// files as the platform finds them in the paths. A plain path of the
/// wanted extension has its stem among the names; one of another extension
/// is not kept.
#[verifier::loop_isolation(false)]
pub fn find_files(paths: &Vec<String>, ext: &str) -> (chosen: NameMap<String>)
    ensures
        chosen.wf(),
        exists|found: Seq<FoundFileView>| #[trigger]
            found_at(found, paths@) && files_view(chosen@) == files_by_name(found, ext@),
        forall|i: int, dir: Seq<char>, stem: Seq<char>, e: Seq<char>|
            0 <= i < paths@.len() && #[trigger] plain_file(paths@[i]@, dir, stem, e) ==> {
                &&& e == ext@ ==> chosen@.contains_key(stem)
                &&& e != ext@ ==> forall|name: Seq<char>| #[trigger]
                    chosen@.contains_key(name) ==> chosen@[name]@ != paths@[i]@
            },
{
    let mut files: Vec<FoundFile> = Vec::new();
    let mut i: usize = 0;
    while i < paths.len()
        invariant
            i <= paths@.len(),
            files@.len() == i,
            forall|j: int| 0 <= j < i ==> (#[trigger] files@[j])@.path == paths@[j]@ && reads_plain_path(files@[j]@),
        decreases paths@.len() - i,
    {
        files.push(found_file(paths[i].as_str()));
        i += 1;
    }
    let chosen = select_files(&files, ext);
    proof {
        let found = found_view(files@);
        assert(found_at(found, paths@));
        lemma_files_by_name(found, ext@);
        assert forall|i: int, dir: Seq<char>, stem: Seq<char>, e: Seq<char>|
            0 <= i < paths@.len() && #[trigger] plain_file(paths@[i]@, dir, stem, e) implies {
            &&& e == ext@ ==> chosen@.contains_key(stem)
            &&& e != ext@ ==> forall|name: Seq<char>| #[trigger]
                chosen@.contains_key(name) ==> chosen@[name]@ != paths@[i]@
        } by {
            assert(plain_file(found[i].path, dir, stem, e));
            if e == ext@ {
                assert(names_file(found, ext@, i, stem));
                assert(files_view(chosen@).contains_key(stem));
            } else {
                assert forall|name: Seq<char>| #[trigger] chosen@.contains_key(name) implies chosen@[name]@
                    != paths@[i]@ by {
                    assert(files_view(chosen@).contains_key(name));
                    let j = choose|j: int| #[trigger]
                        names_file(found, ext@, j, name) && files_by_name(found, ext@)[name] == found[j].path;
                    if chosen@[name]@ == paths@[i]@ {
                        assert(found[j].path == paths@[i]@);
                        assert(plain_file(found[j].path, dir, stem, e));
                    }
                }
            }
        }
    }
    chosen
}

/// The records of `records` in encoded form, or `None` as soon as one of
/// them cannot be encoded.
#[verifier::loop_isolation(false)]
pub fn generic_to_bin_map<R: RawAsset>(records: NameMap<R>) -> (r: Option<BincodeAssetMap>)
    requires
        records.wf(),
    ensures
        match r {
            Some(bin) => bin.wf() && encodes_to(records@, bin@),
            None => encoding_fails(records@),
        },
{
    let ghost whole = records@;
    let mut rest = records;
    let mut bin: BincodeAssetMap = NameMap::new();
    loop
        invariant
            rest.wf(),
            bin.wf(),
            forall|name: Seq<char>| #[trigger]
                rest@.contains_key(name) ==> whole.contains_key(name) && rest@[name] == whole[name],
            forall|name: Seq<char>| #[trigger]
                bin@.contains_key(name) ==> whole.contains_key(name) && !rest@.contains_key(name)
                    && R::to_bytes.ensures((&whole[name],), Some(bin@[name])),
            forall|name: Seq<char>| #[trigger]
                whole.contains_key(name) ==> rest@.contains_key(name) || bin@.contains_key(name),
        decreases rest.entries().len(),
    {
        match rest.pop() {
            None => {
                assert(bin@.dom() =~= whole.dom());
                return Some(bin);
            },
            Some((name, record)) => {
                match record.to_bytes() {
                    Some(bytes) => {
                        bin.insert(name, bytes);
                    },
                    None => {
                        assert(whole.contains_key(name@) && R::to_bytes.ensures((&whole[name@],), None::<Vec<u8>>));
                        return None;
                    },
                }
            },
        }
    }
}

/// Replaces `records` by the records that `bin_map` holds in encoded form.
/// As soon as one of them cannot be decoded, it answers `false` and leaves
/// `records` empty.
#[verifier::loop_isolation(false)]
pub fn generic_load_bin_map<R: RawAsset>(records: &mut NameMap<R>, bin_map: BincodeAssetMap) -> (loaded: bool)
    requires
        bin_map.wf(),
    ensures
        final(records).wf(),
        loaded ==> decodes_to(bin_map@, final(records)@),
        !loaded ==> decoding_fails::<R>(bin_map@) && final(records)@ == Map::<Seq<char>, R>::empty(),
{
    let ghost whole = bin_map@;
    let mut rest = bin_map;
    let mut fresh: NameMap<R> = NameMap::new();
    loop
        invariant
            rest.wf(),
            fresh.wf(),
            forall|name: Seq<char>| #[trigger]
                rest@.contains_key(name) ==> whole.contains_key(name) && rest@[name] == whole[name],
            forall|name: Seq<char>| #[trigger]
                fresh@.contains_key(name) ==> whole.contains_key(name) && !rest@.contains_key(name)
                    && R::from_bytes.ensures((&whole[name],), Some(fresh@[name])),
            forall|name: Seq<char>| #[trigger]
                whole.contains_key(name) ==> rest@.contains_key(name) || fresh@.contains_key(name),
        decreases rest.entries().len(),
    {
        match rest.pop() {
            None => {
                assert(fresh@.dom() =~= whole.dom());
                *records = fresh;
                return true;
            },
            Some((name, bytes)) => {
                match R::from_bytes(&bytes) {
                    Some(record) => {
                        fresh.insert(name, record);
                    },
                    None => {
                        assert(whole.contains_key(name@) && R::from_bytes.ensures((&whole[name@],), None::<R>));
                        *records = NameMap::new();
                        return false;
                    },
                }
            },
        }
    }
}

/// Makes the assets of `records`, as a map bound to `type_id` with the asset
/// of each record under the record's name.
#[verifier::loop_isolation(false)]
pub fn generic_to_asset_map<R: RawAsset>(type_id: TypeKey, records: NameMap<R>, builder: &R::Builder) -> (assets:
    AssetMap<R::Asset>)
    requires
        records.wf(),
    ensures
        assets.wf(),
        assets@.type_id == type_id,
        makes::<R>(records@, builder, assets@.assets),
{
    let ghost whole = records@;
    let mut rest = records;
    let mut made: NameMap<R::Asset> = NameMap::new();
    loop
        invariant
            rest.wf(),
            made.wf(),
            forall|name: Seq<char>| #[trigger]
                rest@.contains_key(name) ==> whole.contains_key(name) && rest@[name] == whole[name],
            forall|name: Seq<char>| #[trigger]
                made@.contains_key(name) ==> whole.contains_key(name) && !rest@.contains_key(name)
                    && R::to_asset.ensures((whole[name], builder), made@[name]),
            forall|name: Seq<char>| #[trigger]
                whole.contains_key(name) ==> rest@.contains_key(name) || made@.contains_key(name),
        decreases rest.entries().len(),
    {
        match rest.pop() {
            None => {
                assert(made@.dom() =~= whole.dom());
                return AssetMap::from_map(type_id, made);
            },
            Some((name, record)) => {
                made.insert(name, record.to_asset(builder));
            },
        }
    }
}

} // verus!
