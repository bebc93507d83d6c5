use sundile_assets::asset_map::AssetMap;
use sundile_assets::codec::{
    decode_table, encode_table, records_from_entries, table_entries, table_from_entries, BincodeAssetMap,
    BincodeAssetTypeMap, PipelineError,
};
use sundile_assets::name_map::NameMap;
use sundile_assets::pipeline::{Deserializer, RawAssetMapper, Serializer};
use sundile_assets::raw::{
    extension_is, find_files, found_file, generic_load_bin_map, generic_to_asset_map, generic_to_bin_map, name_for,
    select_files, FoundFile, RawAsset,
};

const TEXT: u64 = 7;

fn name(s: &str) -> String {
    s.to_string()
}

#[derive(Debug, Clone, PartialEq)]
struct Text(String);

impl RawAsset for Text {
    type Asset = usize;
    type Builder = usize;

    fn to_bytes(&self) -> Option<Vec<u8>> {
        if self.0.is_empty() {
            None
        } else {
            Some(self.0.as_bytes().to_vec())
        }
    }

    fn from_bytes(bytes: &Vec<u8>) -> Option<Self> {
        String::from_utf8(bytes.clone()).ok().map(Text)
    }

    fn to_asset(self, builder: &usize) -> usize {
        self.0.len() + *builder
    }
}

struct TextMapper {
    records: NameMap<Text>,
}

impl TextMapper {
    fn new() -> Self {
        TextMapper { records: NameMap::new() }
    }

    fn with(mut self, n: &str, text: &str) -> Self {
        self.records.insert(name(n), Text(name(text)));
        self
    }
}

impl RawAssetMapper for TextMapper {
    type Asset = usize;
    type Builder = usize;

    fn to_asset_map(self, builder: &usize) -> AssetMap<usize> {
        generic_to_asset_map(TEXT, self.records, builder)
    }

    fn load_bin_map(&mut self, bin_map: BincodeAssetMap) -> bool {
        generic_load_bin_map(&mut self.records, bin_map)
    }

    fn to_bin_map(self) -> BincodeAssetMap {
        generic_to_bin_map(self.records).unwrap()
    }
}

fn small_table() -> BincodeAssetTypeMap {
    let mut records: BincodeAssetMap = NameMap::new();
    records.insert(name("n"), vec![1, 2]);
    let mut table: BincodeAssetTypeMap = NameMap::new();
    table.insert(name("k"), records);
    table
}

fn small_table_bytes() -> Vec<u8> {
    let mut bytes = vec![1, 0, 0, 0, 0, 0, 0, 0];
    bytes.extend_from_slice(&[1, 0, 0, 0, 0, 0, 0, 0, b'k']);
    bytes.extend_from_slice(&[1, 0, 0, 0, 0, 0, 0, 0]);
    bytes.extend_from_slice(&[1, 0, 0, 0, 0, 0, 0, 0, b'n']);
    bytes.extend_from_slice(&[2, 0, 0, 0, 0, 0, 0, 0, 1, 2]);
    bytes
}

#[test]
fn encode_table_gives_bincode_bytes() {
    assert_eq!(encode_table(small_table()), small_table_bytes());
    let empty: BincodeAssetTypeMap = NameMap::new();
    assert_eq!(encode_table(empty), vec![0, 0, 0, 0, 0, 0, 0, 0]);
}

#[test]
fn decode_table_reads_bincode_bytes() {
    let table = decode_table(&small_table_bytes()).unwrap();
    assert_eq!(table.len(), 1);
    let records = table.get(&name("k")).unwrap();
    assert_eq!(records.len(), 1);
    assert_eq!(records.get(&name("n")), Some(&vec![1, 2]));
}

#[test]
fn decode_table_refuses_what_is_no_table() {
    assert_eq!(decode_table(&[1, 2, 3]).unwrap_err(), PipelineError::BinaryDecode);
    assert_eq!(decode_table(&[]).unwrap_err(), PipelineError::BinaryDecode);
    let mut cut = small_table_bytes();
    cut.pop();
    assert_eq!(decode_table(&cut).unwrap_err(), PipelineError::BinaryDecode);
}

#[test]
fn table_round_trip() {
    let mut models: BincodeAssetMap = NameMap::new();
    models.insert(name("cube"), vec![9, 8, 7]);
    models.insert(name("ball"), vec![]);
    let mut shaders: BincodeAssetMap = NameMap::new();
    shaders.insert(name("passthrough"), vec![0, 255]);
    let mut table: BincodeAssetTypeMap = NameMap::new();
    table.insert(name("models"), models);
    table.insert(name("shaders"), shaders);
    table.insert(name("fonts"), NameMap::new());
    let back = decode_table(&encode_table(table)).unwrap();
    assert_eq!(back.len(), 3);
    assert_eq!(back.get(&name("models")).unwrap().len(), 2);
    assert_eq!(back.get(&name("models")).unwrap().get(&name("cube")), Some(&vec![9, 8, 7]));
    assert_eq!(back.get(&name("models")).unwrap().get(&name("ball")), Some(&vec![]));
    assert_eq!(back.get(&name("shaders")).unwrap().get(&name("passthrough")), Some(&vec![0, 255]));
    assert!(back.get(&name("fonts")).unwrap().is_empty());
}

#[test]
fn later_entry_of_a_name_counts() {
    let records = records_from_entries(vec![(name("a"), vec![1]), (name("b"), vec![2]), (name("a"), vec![3])]);
    assert_eq!(records.len(), 2);
    assert_eq!(records.get(&name("a")), Some(&vec![3]));
    assert_eq!(records.get(&name("b")), Some(&vec![2]));
    let table = table_from_entries(vec![
        (name("k"), vec![(name("x"), vec![1]), (name("y"), vec![2])]),
        (name("k"), vec![(name("z"), vec![3])]),
    ]);
    assert_eq!(table.len(), 1);
    let kept = table.get(&name("k")).unwrap();
    assert_eq!(kept.len(), 1);
    assert_eq!(kept.get(&name("z")), Some(&vec![3]));
}

#[test]
fn serializer_directories() {
    let s: Serializer<TextMapper> = Serializer::new();
    assert_eq!(s.out_directory(), "./");
    assert_eq!(s.in_directory(), "./assets/");
    let s = s.with_out_path(name("./tests/")).with_asset_directory(name("./tests/assets"));
    assert_eq!(s.out_directory(), "./tests/");
    assert_eq!(s.in_directory(), "./tests/assets");
}

#[test]
fn tests_test_serialize() {
    let bytes = Serializer::new()
        .with_mapper("texts", TextMapper::new().with("n", "hi"))
        .serialize();
    let mut expected = vec![1, 0, 0, 0, 0, 0, 0, 0];
    expected.extend_from_slice(&[5, 0, 0, 0, 0, 0, 0, 0]);
    expected.extend_from_slice(b"texts");
    expected.extend_from_slice(&[1, 0, 0, 0, 0, 0, 0, 0]);
    expected.extend_from_slice(&[1, 0, 0, 0, 0, 0, 0, 0, b'n']);
    expected.extend_from_slice(&[2, 0, 0, 0, 0, 0, 0, 0, b'h', b'i']);
    assert_eq!(bytes, expected);
    let none: Serializer<TextMapper> = Serializer::new();
    assert_eq!(none.serialize(), vec![0, 0, 0, 0, 0, 0, 0, 0]);
}

#[test]
fn tests_test_deserialize() {
    let bytes = Serializer::new()
        .with_mapper("texts", TextMapper::new().with("cube", "abc").with("ball", "de"))
        .with_mapper("notes", TextMapper::new().with("one", "x"))
        .serialize();
    let registry = Deserializer::new()
        .with_mapper("texts", TextMapper::new())
        .with_mapper("notes", TextMapper::new())
        .with_mapper("unused", TextMapper::new())
        .with_panic(true)
        .deserialize(&bytes, &10)
        .unwrap();
    assert_eq!(*registry.try_get_asset("texts", TEXT, "cube").unwrap(), 13);
    assert_eq!(*registry.try_get_asset("texts", TEXT, "ball").unwrap(), 12);
    assert_eq!(*registry.try_get_asset("notes", TEXT, "one").unwrap(), 11);
    assert!(!registry.contains_kind("unused"));
    assert!(registry.try_get_asset("notes", TEXT, "cube").is_err());
    assert!(registry.try_get_asset("texts", TEXT + 1, "cube").is_err());
}

#[test]
fn deserialize_kind_without_mapper() {
    let bytes = Serializer::new()
        .with_mapper("texts", TextMapper::new().with("cube", "abc"))
        .with_mapper("notes", TextMapper::new().with("one", "x"))
        .serialize();
    let strict = Deserializer::new().with_mapper("texts", TextMapper::new()).deserialize(&bytes, &0);
    assert_eq!(strict.unwrap_err(), PipelineError::MapperMissing);
    let lenient = Deserializer::new()
        .with_mapper("texts", TextMapper::new())
        .with_panic(false)
        .deserialize(&bytes, &0)
        .unwrap();
    assert_eq!(*lenient.try_get_asset("texts", TEXT, "cube").unwrap(), 3);
    assert!(!lenient.contains_kind("notes"));
}

#[test]
fn deserialize_failures() {
    let d: Deserializer<TextMapper> = Deserializer::new();
    assert_eq!(d.deserialize(&[7], &0).unwrap_err(), PipelineError::BinaryDecode);
    let mut records: BincodeAssetMap = NameMap::new();
    records.insert(name("bad"), vec![0xff, 0xfe]);
    let mut table: BincodeAssetTypeMap = NameMap::new();
    table.insert(name("texts"), records);
    let d = Deserializer::new().with_mapper("texts", TextMapper::new());
    assert_eq!(d.convert(table, &0).unwrap_err(), PipelineError::BinaryDecode);
}

#[test]
fn settle_says_when_a_left_kind_is_an_error() {
    assert_eq!(Deserializer::<TextMapper>::settle(true, true), Err(PipelineError::MapperMissing));
    assert_eq!(Deserializer::<TextMapper>::settle(true, false), Ok(()));
    assert_eq!(Deserializer::<TextMapper>::settle(false, true), Ok(()));
    assert_eq!(Deserializer::<TextMapper>::settle(false, false), Ok(()));
}

#[test]
fn collect_has_the_kinds_of_the_mappers() {
    let table = Serializer::new()
        .with_mapper("a", TextMapper::new().with("x", "1"))
        .with_mapper("b", TextMapper::new())
        .with_mapper("a", TextMapper::new().with("y", "2"))
        .collect();
    assert_eq!(table.len(), 2);
    assert_eq!(table.get(&name("a")).unwrap().get(&name("y")), Some(&vec![b'2']));
    assert!(!table.get(&name("a")).unwrap().contains_key(&name("x")));
    assert!(table.get(&name("b")).unwrap().is_empty());
}

#[test]
fn records_round_trip() {
    let mut records: NameMap<Text> = NameMap::new();
    records.insert(name("a"), Text(name("alpha")));
    records.insert(name("b"), Text(name("beta")));
    let bin = generic_to_bin_map(records).unwrap();
    assert_eq!(bin.get(&name("a")), Some(&b"alpha".to_vec()));
    let mut back: NameMap<Text> = NameMap::new();
    back.insert(name("stale"), Text(name("gone")));
    assert!(generic_load_bin_map(&mut back, bin));
    assert_eq!(back.len(), 2);
    assert_eq!(back.get(&name("a")), Some(&Text(name("alpha"))));
    assert_eq!(back.get(&name("b")), Some(&Text(name("beta"))));
}

#[test]
fn records_that_cannot_be_coded() {
    let mut records: NameMap<Text> = NameMap::new();
    records.insert(name("a"), Text(name("alpha")));
    records.insert(name("empty"), Text(String::new()));
    assert!(generic_to_bin_map(records).is_none());
    let mut bin: BincodeAssetMap = NameMap::new();
    bin.insert(name("ok"), b"fine".to_vec());
    bin.insert(name("bad"), vec![0xff]);
    let mut back: NameMap<Text> = NameMap::new();
    back.insert(name("stale"), Text(name("gone")));
    assert!(!generic_load_bin_map(&mut back, bin));
    assert!(back.is_empty());
}

#[test]
fn assets_are_made_of_every_record() {
    let mut records: NameMap<Text> = NameMap::new();
    records.insert(name("a"), Text(name("alpha")));
    records.insert(name("b"), Text(name("be")));
    let assets = generic_to_asset_map(TEXT, records, &100);
    assert_eq!(assets.type_id(), TEXT);
    assert_eq!(*assets.try_get(TEXT, "a").unwrap(), 105);
    assert_eq!(*assets.try_get(TEXT, "b").unwrap(), 102);
}

fn file(path: &str, extension: Option<&str>, stem: Option<&str>) -> FoundFile {
    FoundFile { path: name(path), extension: extension.map(name), stem: stem.map(name) }
}

#[test]
fn files_are_chosen_by_extension_and_named_by_stem() {
    let files = vec![
        file("models/cube.obj", Some("obj"), Some("cube")),
        file("models/readme.txt", Some("txt"), Some("readme")),
        file("models/ball.OBJ", Some("OBJ"), Some("ball")),
        file("models/sub/cube.obj", Some("obj"), Some("cube")),
        file("models/obj", None, Some("obj")),
        file("models/..", None, None),
    ];
    let chosen = select_files(&files, "obj");
    assert_eq!(chosen.len(), 1);
    assert_eq!(chosen.get(&name("cube")), Some(&name("models/sub/cube.obj")));
    let bare = select_files(&files, "");
    assert_eq!(bare.len(), 1);
    assert_eq!(bare.get(&name("obj")), Some(&name("models/obj")));
    assert!(select_files(&files, "png").is_empty());
}

#[test]
fn files_are_found_in_paths() {
    assert_eq!(found_file("assets/models/cube.obj"), file("assets/models/cube.obj", Some("obj"), Some("cube")));
    assert_eq!(found_file("assets/models/obj"), file("assets/models/obj", None, Some("obj")));
    assert_eq!(found_file("a/archive.tar.gz"), file("a/archive.tar.gz", Some("gz"), Some("archive.tar")));
    let paths = vec![
        name("assets/models/cube.obj"),
        name("assets/models/readme.txt"),
        name("assets/models/sub/cube.obj"),
        name("assets/models/archive.tar.obj"),
    ];
    let chosen = find_files(&paths, "obj");
    assert_eq!(chosen.len(), 2);
    assert_eq!(chosen.get(&name("cube")), Some(&name("assets/models/sub/cube.obj")));
    assert_eq!(chosen.get(&name("archive.tar")), Some(&name("assets/models/archive.tar.obj")));
}

#[test]
fn name_for_decides_on_extension_and_stem() {
    assert_eq!(name_for(&Some(name("obj")), &Some(name("cube")), "obj"), Some(name("cube")));
    assert_eq!(name_for(&Some(name("OBJ")), &Some(name("cube")), "obj"), None);
    assert_eq!(name_for(&None, &Some(name("cube")), "obj"), None);
    assert_eq!(name_for(&None, &Some(name("cube")), ""), Some(name("cube")));
    assert_eq!(name_for(&Some(name("obj")), &None, "obj"), None);
}

#[test]
fn extension_is_compared_letter_for_letter() {
    assert!(extension_is(&Some(name("wgsl")), "wgsl"));
    assert!(!extension_is(&Some(name("WGSL")), "wgsl"));
    assert!(!extension_is(&Some(name("wgsl")), "wgs"));
    assert!(!extension_is(&Some(name("ttf")), ""));
    assert!(extension_is(&None, ""));
    assert!(!extension_is(&None, "ttf"));
}

#[test]
fn table_entries_name_everything_once() {
    let mut models: BincodeAssetMap = NameMap::new();
    models.insert(name("cube"), vec![1]);
    models.insert(name("ball"), vec![2]);
    let mut table: BincodeAssetTypeMap = NameMap::new();
    table.insert(name("models"), models);
    table.insert(name("fonts"), NameMap::new());
    let mut list = table_entries(table);
    list.sort();
    assert_eq!(list.len(), 2);
    assert_eq!(list[0], (name("fonts"), vec![]));
    let mut records = list[1].1.clone();
    records.sort();
    assert_eq!(list[1].0, name("models"));
    assert_eq!(records, vec![(name("ball"), vec![2]), (name("cube"), vec![1])]);
    let back = table_from_entries(list);
    assert_eq!(back.get(&name("models")).unwrap().get(&name("cube")), Some(&vec![1]));
}

#[test]
fn plain_paths_are_read_alike() {
    assert_eq!(found_file("cube.obj"), file("cube.obj", Some("obj"), Some("cube")));
    assert_eq!(found_file("/cube.obj"), file("/cube.obj", Some("obj"), Some("cube")));
    assert_eq!(found_file("./a/../b/cube.obj"), file("./a/../b/cube.obj", Some("obj"), Some("cube")));
    let paths = vec![name("models/cube.obj"), name("models/cube.png"), name("models/ball.obj")];
    let chosen = find_files(&paths, "obj");
    assert!(chosen.contains_key(&name("cube")));
    assert!(chosen.contains_key(&name("ball")));
    assert_eq!(chosen.len(), 2);
    assert_eq!(chosen.get(&name("cube")), Some(&name("models/cube.obj")));
    let none = find_files(&paths, "wgsl");
    assert!(none.is_empty());
}
