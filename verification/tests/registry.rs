use std::rc::Rc;
use sundile_assets::asset_map::AssetMap;
use sundile_assets::error::AssetError;
use sundile_assets::name_map::NameMap;
use sundile_assets::storage::AssetStorage;
use sundile_assets::type_map::AssetTypeMap;

const NUMBER: u64 = 1;
const TEXT: u64 = 2;

fn name(s: &str) -> String {
    s.to_string()
}

fn three() -> AssetMap<i32> {
    let mut map = AssetMap::new(NUMBER);
    assert_eq!(map.try_insert(NUMBER, "a", 1).unwrap(), None);
    assert_eq!(map.try_insert(NUMBER, "b", 2).unwrap(), None);
    assert_eq!(map.try_insert(NUMBER, "c", 3).unwrap(), None);
    map
}

#[test]
fn name_map_insert_get_remove() {
    let mut m: NameMap<i32> = NameMap::new();
    assert!(m.is_empty());
    assert_eq!(m.insert(name("a"), 1), None);
    assert_eq!(m.insert(name("b"), 2), None);
    assert_eq!(m.insert(name("a"), 3), Some(1));
    assert_eq!(m.len(), 2);
    assert_eq!(m.get(&name("a")), Some(&3));
    assert_eq!(m.get(&name("z")), None);
    assert!(m.contains_key(&name("b")));
    assert_eq!(m.remove(&name("b")), Some(2));
    assert_eq!(m.remove(&name("b")), None);
    assert_eq!(m.pop(), Some((name("a"), 3)));
    assert_eq!(m.pop(), None);
}

#[test]
fn name_map_entries_in_order() {
    let mut m: NameMap<i32> = NameMap::new();
    m.insert(name("x"), 10);
    m.insert(name("y"), 20);
    assert_eq!(m.entry(0), (&name("x"), &10));
    assert_eq!(m.entry(1), (&name("y"), &20));
    assert_eq!(m.into_entries(), vec![(name("x"), 10), (name("y"), 20)]);
}

#[test]
fn storage_get_checks_type() {
    let s = AssetStorage::new(NUMBER, 4);
    assert_eq!(s.type_id(), NUMBER);
    assert_eq!(*s.try_get(NUMBER).unwrap(), 4);
    assert_eq!(s.try_get(TEXT).unwrap_err(), AssetError::InvalidType);
}

#[test]
fn storage_take_while_shared_fails_and_keeps_value() {
    let s = AssetStorage::new(NUMBER, 4);
    let handle = s.try_get(NUMBER).unwrap();
    let (err, s) = s.try_take(NUMBER).unwrap_err();
    assert_eq!(err, AssetError::InvalidTake);
    assert_eq!(*s.try_get(NUMBER).unwrap(), 4);
    assert_eq!(*handle, 4);
    drop(handle);
    assert_eq!(s.try_take(NUMBER).unwrap(), 4);
}

#[test]
fn storage_take_of_other_type_gives_storage_back() {
    let s = AssetStorage::new(NUMBER, 4);
    let (err, s) = s.try_take(TEXT).unwrap_err();
    assert_eq!(err, AssetError::InvalidType);
    assert_eq!(s.try_take(NUMBER).unwrap(), 4);
}

#[test]
fn storage_settle_take_on_both_answers() {
    assert_eq!(AssetStorage::settle_take(NUMBER, Ok(7)).unwrap(), 7);
    let (err, s) = AssetStorage::settle_take(NUMBER, Err(Rc::new(8))).unwrap_err();
    assert_eq!(err, AssetError::InvalidTake);
    assert_eq!(s.type_id(), NUMBER);
    assert_eq!(*s.try_get(NUMBER).unwrap(), 8);
}

#[test]
fn asset_map_constructors() {
    let empty: AssetMap<i32> = AssetMap::new(NUMBER);
    assert!(empty.is_empty());
    assert_eq!(empty.type_id(), NUMBER);
    let by_id: AssetMap<i32> = AssetMap::from_type_id(TEXT);
    assert!(by_id.is_empty());
    assert_eq!(by_id.type_id(), TEXT);
    let one = AssetMap::from_asset(NUMBER, "four", 4);
    assert_eq!(*one.try_get(NUMBER, "four").unwrap(), 4);
    let mut values: NameMap<i32> = NameMap::new();
    values.insert(name("a"), 1);
    values.insert(name("b"), 2);
    let many = AssetMap::from_map(NUMBER, values);
    assert_eq!(many.type_id(), NUMBER);
    assert_eq!(*many.try_get(NUMBER, "a").unwrap(), 1);
    assert_eq!(*many.try_get(NUMBER, "b").unwrap(), 2);
    assert!(!many.contains("c"));
}

#[test]
fn asset_map_insert_returns_previous() {
    let mut map = AssetMap::new(NUMBER);
    assert_eq!(map.try_insert(NUMBER, "four", 4).unwrap(), None);
    assert_eq!(map.try_insert(NUMBER, "four", 5).unwrap(), Some(4));
    assert_eq!(*map.try_get(NUMBER, "four").unwrap(), 5);
}

#[test]
fn asset_map_insert_of_other_type_changes_nothing() {
    let mut map = three();
    let (err, storage) = map.try_insert(TEXT, "a", 9).unwrap_err();
    assert_eq!(err, AssetError::InvalidType);
    assert!(storage.is_none());
    let (err, storage) = map.try_insert(TEXT, "z", 9).unwrap_err();
    assert_eq!(err, AssetError::InvalidType);
    assert!(storage.is_none());
    assert_eq!(*map.try_get(NUMBER, "a").unwrap(), 1);
    assert!(!map.contains("z"));
}

#[test]
fn asset_map_insert_over_shared_asset_stores_new_and_returns_old_storage() {
    let mut map = three();
    let handle = map.try_get(NUMBER, "b").unwrap();
    let (err, storage) = map.try_insert(NUMBER, "b", 20).unwrap_err();
    assert_eq!(err, AssetError::InvalidTake);
    assert_eq!(*map.try_get(NUMBER, "b").unwrap(), 20);
    drop(handle);
    assert_eq!(storage.unwrap().try_take(NUMBER).unwrap(), 2);
}

#[test]
fn asset_map_get_errors() {
    let map = three();
    assert_eq!(map.try_get(NUMBER, "err").unwrap_err(), AssetError::AssetNotFound(name("err")));
    assert_eq!(map.try_get(TEXT, "a").unwrap_err(), AssetError::InvalidType);
    assert_eq!(map.try_get(TEXT, "err").unwrap_err(), AssetError::AssetNotFound(name("err")));
}

#[test]
fn asset_map_take_restores_on_failure() {
    let mut map = three();
    assert_eq!(map.try_take(NUMBER, "err").unwrap_err(), AssetError::AssetNotFound(name("err")));
    assert_eq!(map.try_take(TEXT, "a").unwrap_err(), AssetError::InvalidType);
    let handle = map.try_get(NUMBER, "a").unwrap();
    assert_eq!(map.try_take(NUMBER, "a").unwrap_err(), AssetError::InvalidTake);
    assert_eq!(*map.try_get(NUMBER, "a").unwrap(), 1);
    drop(handle);
    assert_eq!(map.try_take(NUMBER, "a").unwrap(), 1);
    assert_eq!(map.try_take(NUMBER, "a").unwrap_err(), AssetError::AssetNotFound(name("a")));
    assert_eq!(*map.try_get(NUMBER, "b").unwrap(), 2);
}

#[test]
fn asset_map_extend_merges_same_type_only() {
    let mut map = three();
    let mut more = AssetMap::new(NUMBER);
    more.try_insert(NUMBER, "c", 30).unwrap();
    more.try_insert(NUMBER, "d", 40).unwrap();
    assert_eq!(map.try_extend(more), Ok(()));
    assert_eq!(*map.try_get(NUMBER, "a").unwrap(), 1);
    assert_eq!(*map.try_get(NUMBER, "c").unwrap(), 30);
    assert_eq!(*map.try_get(NUMBER, "d").unwrap(), 40);
    let other = AssetMap::from_asset(TEXT, "a", 100);
    assert_eq!(map.try_extend(other), Err(AssetError::InvalidType));
    assert_eq!(*map.try_get(NUMBER, "a").unwrap(), 1);
    assert_eq!(map.type_id(), NUMBER);
}

#[test]
fn asset_map_into_drains_everything() {
    let values = three().try_into(NUMBER).unwrap();
    assert_eq!(values.len(), 3);
    assert_eq!(values.get(&name("a")), Some(&1));
    assert_eq!(values.get(&name("b")), Some(&2));
    assert_eq!(values.get(&name("c")), Some(&3));
}

#[test]
fn asset_map_into_partial_drain_loses_nothing() {
    let map = three();
    let handle = map.try_get(NUMBER, "b").unwrap();
    let (err, mut back) = map.try_into(NUMBER).unwrap_err();
    assert_eq!(err, AssetError::InvalidTake);
    assert_eq!(back.type_id(), NUMBER);
    assert_eq!(*back.try_get(NUMBER, "a").unwrap(), 1);
    assert_eq!(*back.try_get(NUMBER, "b").unwrap(), 2);
    assert_eq!(*back.try_get(NUMBER, "c").unwrap(), 3);
    assert_eq!(back.try_take(NUMBER, "a").unwrap(), 1);
    back.try_insert(NUMBER, "a", 1).unwrap();
    drop(handle);
    let values = back.try_into(NUMBER).unwrap();
    assert_eq!(values.len(), 3);
    assert_eq!(values.get(&name("b")), Some(&2));
}

#[test]
fn asset_map_into_of_other_type() {
    let (err, back) = three().try_into(TEXT).unwrap_err();
    assert_eq!(err, AssetError::InvalidType);
    assert_eq!(*back.try_get(NUMBER, "a").unwrap(), 1);
    assert_eq!(*back.try_get(NUMBER, "b").unwrap(), 2);
    assert_eq!(*back.try_get(NUMBER, "c").unwrap(), 3);
    let empty: AssetMap<i32> = AssetMap::new(NUMBER);
    assert!(empty.try_into(TEXT).unwrap().is_empty());
}

#[test]
fn asset_map_as_gives_handles_and_keeps_map() {
    let mut map = three();
    {
        let handles = map.try_as(NUMBER).unwrap();
        assert_eq!(handles.len(), 3);
        assert_eq!(**handles.get(&name("a")).unwrap(), 1);
        assert_eq!(**handles.get(&name("c")).unwrap(), 3);
        assert_eq!(map.try_take(NUMBER, "a").unwrap_err(), AssetError::InvalidTake);
    }
    assert_eq!(map.try_as(TEXT).unwrap_err(), AssetError::InvalidType);
    assert_eq!(map.try_take(NUMBER, "a").unwrap(), 1);
    let empty: AssetMap<i32> = AssetMap::new(NUMBER);
    assert!(empty.try_as(TEXT).unwrap().is_empty());
}

#[test]
fn type_map_missing_kind_then_missing_name() {
    let mut map: AssetTypeMap<i32> = AssetTypeMap::new();
    assert_eq!(
        map.try_get_asset("numbers", NUMBER, "4").unwrap_err(),
        AssetError::AssetTypeNotFound(name("numbers"))
    );
    assert!(!map.contains_kind("numbers"));
    assert_eq!(map.try_insert_asset("numbers", NUMBER, "five", 5).unwrap(), None);
    assert!(map.contains_kind("numbers"));
    assert_eq!(map.try_get_asset("numbers", NUMBER, "4").unwrap_err(), AssetError::AssetNotFound(name("4")));
    assert_eq!(*map.try_get_asset("numbers", NUMBER, "five").unwrap(), 5);
}

#[test]
fn type_map_insert_returns_previous() {
    let mut map: AssetTypeMap<&str> = AssetTypeMap::new();
    assert_eq!(map.try_insert_asset("models", TEXT, "cube", "old").unwrap(), None);
    assert_eq!(map.try_insert_asset("models", TEXT, "cube", "new").unwrap(), Some("old"));
    assert_eq!(*map.try_get_asset("models", TEXT, "cube").unwrap(), "new");
}

#[test]
fn type_map_insert_of_other_type_changes_nothing() {
    let mut map: AssetTypeMap<i32> = AssetTypeMap::new();
    map.try_insert_asset("numbers", NUMBER, "four", 4).unwrap();
    let (err, storage) = map.try_insert_asset("numbers", TEXT, "four", 44).unwrap_err();
    assert_eq!(err, AssetError::InvalidType);
    assert!(storage.is_none());
    let (err, _) = map.try_insert_asset("numbers", TEXT, "five", 5).unwrap_err();
    assert_eq!(err, AssetError::InvalidType);
    assert_eq!(*map.try_get_asset("numbers", NUMBER, "four").unwrap(), 4);
    assert_eq!(
        map.try_get_asset("numbers", NUMBER, "five").unwrap_err(),
        AssetError::AssetNotFound(name("five"))
    );
}

#[test]
fn test_all() {
    let mut map: AssetTypeMap<i32> = AssetTypeMap::new();
    map.try_insert_asset("models", NUMBER, "cube", 8).unwrap();

    assert_eq!(*map.try_get_asset("models", NUMBER, "cube").unwrap(), 8);
    assert_eq!(
        map.try_get_asset("models", NUMBER, "err").unwrap_err(),
        AssetError::AssetNotFound("err".into())
    );
    assert_eq!(
        map.try_get_asset("numbers", NUMBER, "err").unwrap_err(),
        AssetError::AssetTypeNotFound("numbers".into())
    );

    assert_eq!(
        map.try_take_asset("models", NUMBER, "err").unwrap_err(),
        AssetError::AssetNotFound("err".into())
    );
    assert_eq!(
        map.try_take_asset("numbers", NUMBER, "err").unwrap_err(),
        AssetError::AssetTypeNotFound("numbers".into())
    );

    let gotten = map.try_get_asset("models", NUMBER, "cube").unwrap();
    assert_eq!(map.try_take_asset("models", NUMBER, "cube").unwrap_err(), AssetError::InvalidTake);
    drop(gotten);
    let taken = map.try_take_asset("models", NUMBER, "cube").unwrap();

    assert!(map.try_insert_asset("models", NUMBER, "cube", taken).unwrap().is_none());
    assert!(map.try_insert_asset("numbers", NUMBER, "4", 4).unwrap().is_none());
    assert!(map.try_insert_asset("numbers", NUMBER, "4", 4).unwrap().is_some());

    assert_eq!(
        map.try_get_asset_map("strings", TEXT).unwrap_err(),
        AssetError::AssetTypeNotFound("strings".into())
    );
    map.try_get_asset_map("numbers", NUMBER).unwrap();

    assert_eq!(
        map.try_take_asset_map("strings", TEXT).unwrap_err(),
        AssetError::AssetTypeNotFound("strings".into())
    );
    map.try_take_asset_map("numbers", NUMBER).unwrap();
    assert_eq!(
        map.try_take_asset_map("numbers", NUMBER).unwrap_err(),
        AssetError::AssetTypeNotFound("numbers".into())
    );
}

#[test]
fn type_map_take_asset_map_restores_kind_on_failure() {
    let mut map: AssetTypeMap<i32> = AssetTypeMap::new();
    map.try_insert_asset("numbers", NUMBER, "a", 1).unwrap();
    map.try_insert_asset("numbers", NUMBER, "b", 2).unwrap();
    let handle = map.try_get_asset("numbers", NUMBER, "a").unwrap();
    assert_eq!(map.try_take_asset_map("numbers", NUMBER).unwrap_err(), AssetError::InvalidTake);
    assert_eq!(*map.try_get_asset("numbers", NUMBER, "a").unwrap(), 1);
    assert_eq!(*map.try_get_asset("numbers", NUMBER, "b").unwrap(), 2);
    assert_eq!(map.try_take_asset_map("numbers", TEXT).unwrap_err(), AssetError::InvalidType);
    assert_eq!(*map.try_get_asset("numbers", NUMBER, "b").unwrap(), 2);
    drop(handle);
    let values = map.try_take_asset_map("numbers", NUMBER).unwrap();
    assert_eq!(values.get(&name("a")), Some(&1));
    assert_eq!(values.get(&name("b")), Some(&2));
    assert!(!map.contains_kind("numbers"));
}

#[test]
fn type_map_get_asset_map() {
    let mut map: AssetTypeMap<i32> = AssetTypeMap::new();
    map.try_insert_asset("numbers", NUMBER, "a", 1).unwrap();
    let handles = map.try_get_asset_map("numbers", NUMBER).unwrap();
    assert_eq!(handles.len(), 1);
    assert_eq!(**handles.get(&name("a")).unwrap(), 1);
    assert_eq!(map.try_get_asset_map("numbers", TEXT).unwrap_err(), AssetError::InvalidType);
}

#[test]
fn type_map_insert_maps() {
    let mut map: AssetTypeMap<i32> = AssetTypeMap::new();
    assert!(map.insert_asset_map("numbers", AssetMap::from_asset(NUMBER, "a", 1)).is_none());
    let previous = map.insert_asset_map("numbers", AssetMap::from_asset(NUMBER, "b", 2)).unwrap();
    assert_eq!(*previous.try_get(NUMBER, "a").unwrap(), 1);
    assert_eq!(map.try_get_asset("numbers", NUMBER, "a").unwrap_err(), AssetError::AssetNotFound(name("a")));
    let mut values: NameMap<i32> = NameMap::new();
    values.insert(name("x"), 10);
    values.insert(name("y"), 20);
    assert!(map.insert_map("texts", TEXT, values).is_none());
    assert_eq!(*map.try_get_asset("texts", TEXT, "y").unwrap(), 20);
    assert_eq!(map.try_get_asset("texts", NUMBER, "y").unwrap_err(), AssetError::InvalidType);
}

#[test]
fn type_map_combine_extends_and_adopts() {
    let mut map: AssetTypeMap<i32> = AssetTypeMap::new();
    map.try_insert_asset("numbers", NUMBER, "a", 1).unwrap();
    map.try_insert_asset("numbers", NUMBER, "b", 2).unwrap();
    let mut other: AssetTypeMap<i32> = AssetTypeMap::new();
    other.try_insert_asset("numbers", NUMBER, "b", 20).unwrap();
    other.try_insert_asset("texts", TEXT, "t", 3).unwrap();
    assert_eq!(map.try_combine(other), Ok(()));
    assert_eq!(*map.try_get_asset("numbers", NUMBER, "a").unwrap(), 1);
    assert_eq!(*map.try_get_asset("numbers", NUMBER, "b").unwrap(), 20);
    assert_eq!(*map.try_get_asset("texts", TEXT, "t").unwrap(), 3);
}

#[test]
fn type_map_combine_stops_at_mismatch() {
    let mut map: AssetTypeMap<i32> = AssetTypeMap::new();
    map.try_insert_asset("numbers", NUMBER, "a", 1).unwrap();
    let mut other: AssetTypeMap<i32> = AssetTypeMap::new();
    other.try_insert_asset("numbers", TEXT, "a", 100).unwrap();
    assert_eq!(map.try_combine(other), Err(AssetError::InvalidType));
    assert_eq!(*map.try_get_asset("numbers", NUMBER, "a").unwrap(), 1);
}

#[test]
fn errors_in_words() {
    assert_eq!(AssetError::InvalidType.message(), "Could not match asset types.");
    assert_eq!(
        AssetError::InvalidTake.message(),
        "Could not convert to owned type. This probably means there are existing references to this value!"
    );
    assert_eq!(AssetError::AssetTypeNotFound(name("numbers")).message(), "No asset map with type name 'numbers'");
    assert_eq!(AssetError::AssetNotFound(name("cube")).message(), "No asset found with name 'cube");
}
