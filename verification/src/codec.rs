//! The stored form of the registry: for each kind of asset, the encoded
//! records of its assets by name; and the bytes of the whole table, which
//! bincode writes and reads.

use crate::name_map::{distinct_names, entries_map, lemma_entry_at, NameMap};
use vstd::prelude::*;

verus! {

/// The encoded records of one kind of asset, by name.
pub type BincodeAssetMap = NameMap<Vec<u8>>;

/// The encoded records of all kinds, by kind and name.
pub type BincodeAssetTypeMap = NameMap<NameMap<Vec<u8>>>;

/// Why the table could not be read or turned into assets.
#[derive(Debug, Clone, Copy, PartialEq, Eq, Structural)]
pub enum PipelineError {
    /// The bytes are not a table, or a mapper could not read its records.
    BinaryDecode,
    /// The table holds a kind for which no mapper is registered.
    MapperMissing,
}

/// `bincode::ErrorKind`, the error of bincode's functions. Nothing is read of it.
#[verifier::external_type_specification]
#[verifier::external_body]
pub struct ExBincodeErrorKind(bincode::ErrorKind);

/// A list of records by the characters of their names and their bytes.
pub open spec fn records_view(list: Seq<(String, Vec<u8>)>) -> Seq<(Seq<char>, Seq<u8>)> {
    Seq::new(list.len(), |i: int| (list[i].0@, list[i].1@))
}

/// A list of kinds, each with the list of its records, by characters and bytes.
pub open spec fn table_view(list: Seq<(String, Vec<(String, Vec<u8>)>)>) -> Seq<
    (Seq<char>, Seq<(Seq<char>, Seq<u8>)>),
> {
    Seq::new(list.len(), |i: int| (list[i].0@, records_view(list[i].1@)))
}

/// The records of a map by their bytes.
pub open spec fn bytes_of(m: Map<Seq<char>, Vec<u8>>) -> Map<Seq<char>, Seq<u8>> {
    Map::new(|name: Seq<char>| m.contains_key(name), |name: Seq<char>| m[name]@)
}

/// The records of a table, by kind and name.
pub open spec fn table_of(m: Map<Seq<char>, NameMap<Vec<u8>>>) -> Map<Seq<char>, Map<Seq<char>, Seq<u8>>> {
    Map::new(|kind: Seq<char>| m.contains_key(kind), |kind: Seq<char>| bytes_of(m[kind]@))
}

/// Every map of records in `m` is well formed.
pub open spec fn all_records_wf(m: Map<Seq<char>, NameMap<Vec<u8>>>) -> bool {
    forall|kind: Seq<char>| #[trigger] m.contains_key(kind) ==> m[kind].wf()
}

/// `list` names each record of `records` once, with its bytes, and nothing else.
pub open spec fn lists_records(list: Seq<(Seq<char>, Seq<u8>)>, records: Map<Seq<char>, Seq<u8>>) -> bool {
    &&& forall|i: int, j: int|
        0 <= i < list.len() && 0 <= j < list.len() && i != j ==> (#[trigger] list[i]).0 != (#[trigger] list[j]).0
    &&& forall|i: int|
        0 <= i < list.len() ==> records.contains_key((#[trigger] list[i]).0) && records[list[i].0] == list[i].1
    &&& forall|name: Seq<char>| #[trigger]
        records.contains_key(name) ==> exists|i: int| 0 <= i < list.len() && (#[trigger] list[i]).0 == name
}

/// `list` names each kind of `table` once, with a list of its records, and nothing else.
pub open spec fn lists_table(
    list: Seq<(Seq<char>, Seq<(Seq<char>, Seq<u8>)>)>,
    table: Map<Seq<char>, Map<Seq<char>, Seq<u8>>>,
) -> bool {
    &&& forall|i: int, j: int|
        0 <= i < list.len() && 0 <= j < list.len() && i != j ==> (#[trigger] list[i]).0 != (#[trigger] list[j]).0
    &&& forall|i: int|
        0 <= i < list.len() ==> table.contains_key((#[trigger] list[i]).0) && lists_records(
            list[i].1,
            table[list[i].0],
        )
    &&& forall|kind: Seq<char>| #[trigger]
        table.contains_key(kind) ==> exists|i: int| 0 <= i < list.len() && (#[trigger] list[i]).0 == kind
}

/// The records that a list stands for. Where a name occurs more than once,
/// its last record counts.
pub open spec fn records_model(list: Seq<(Seq<char>, Seq<u8>)>) -> Map<Seq<char>, Seq<u8>>
    decreases list.len(),
{
    if list.len() == 0 {
        Map::empty()
    } else {
        let later = records_model(list.drop_first());
        if later.contains_key(list[0].0) {
            later
        } else {
            later.insert(list[0].0, list[0].1)
        }
    }
}

/// The table that a list of kinds stands for. Where a kind occurs more than
/// once, its last list of records counts.
pub open spec fn table_model(list: Seq<(Seq<char>, Seq<(Seq<char>, Seq<u8>)>)>) -> Map<
    Seq<char>,
    Map<Seq<char>, Seq<u8>>,
>
    decreases list.len(),
{
    if list.len() == 0 {
        Map::empty()
    } else {
        let later = table_model(list.drop_first());
        if later.contains_key(list[0].0) {
            later
        } else {
            later.insert(list[0].0, records_model(list[0].1))
        }
    }
}

/// The bytes that `bincode::serialize` gives for a list of kinds, each with
/// the list of its records.
pub uninterp spec fn bincode_encoding(table: Seq<(Seq<char>, Seq<(Seq<char>, Seq<u8>)>)>) -> Seq<u8>;

/// The list of kinds, each with the list of its records, that
/// `bincode::deserialize` reads from `bytes`; `None` where it fails.
pub uninterp spec fn bincode_decoding(bytes: Seq<u8>) -> Option<Seq<(Seq<char>, Seq<(Seq<char>, Seq<u8>)>)>>;

/// `bincode::serialize` on a list of kinds, each with the list of its
/// records: strings and bytes with their lengths before them, in the order
/// of the list. It succeeds, since bincode sets no limit on the size here,
/// writes into memory, and every sequence of the list has a length; the
/// bytes are a function of the list alone.
#[verifier::external_body]
fn bincode_serialize(list: &Vec<(String, Vec<(String, Vec<u8>)>)>) -> (r: Result<Vec<u8>, Box<bincode::ErrorKind>>)
    ensures
        r is Ok,
        r matches Ok(bytes) ==> bytes@ == bincode_encoding(table_view(list@)),
{
    bincode::serialize(list)
}

/// The list that was read, by characters and bytes; `None` for a failure.
pub open spec fn list_read(r: Result<Vec<(String, Vec<(String, Vec<u8>)>)>, Box<bincode::ErrorKind>>) -> Option<
    Seq<(Seq<char>, Seq<(Seq<char>, Seq<u8>)>)>,
> {
    match r {
        Ok(list) => Some(table_view(list@)),
        Err(_) => None,
    }
}

/// `bincode::deserialize` of a list of kinds, each with the list of its
/// records. Whether it succeeds and what it reads are a function of the
/// bytes alone. From the bytes that `bincode::serialize` wrote for a list it
/// reads that list: lengths, strings and bytes are read in the order and
/// the form in which they are written.
#[verifier::external_body]
fn bincode_deserialize(bytes: &[u8]) -> (r: Result<
    Vec<(String, Vec<(String, Vec<u8>)>)>,
    Box<bincode::ErrorKind>,
>)
    ensures
        list_read(r) == bincode_decoding(bytes@),
        forall|list: Seq<(Seq<char>, Seq<(Seq<char>, Seq<u8>)>)>|
            bytes@ == #[trigger] bincode_encoding(list) ==> list_read(r) == Some(list),
{
    bincode::deserialize(bytes)
}

/// A list of entries with distinct names lists the records of the map that it stands for.
pub proof fn lemma_distinct_list_lists_records(list: Seq<(String, Vec<u8>)>)
    requires
        distinct_names(list),
    ensures
        lists_records(records_view(list), bytes_of(entries_map(list))),
{
    let view = records_view(list);
    let records = bytes_of(entries_map(list));
    assert forall|i: int, j: int| 0 <= i < view.len() && 0 <= j < view.len() && i != j implies (#[trigger] view[i]).0
        != (#[trigger] view[j]).0 by {
        assert(list[i].0@ != list[j].0@);
    }
    assert forall|i: int| 0 <= i < view.len() implies records.contains_key((#[trigger] view[i]).0)
        && records[view[i].0] == view[i].1 by {
        lemma_entry_at(list, i);
    }
    assert forall|name: Seq<char>| #[trigger] records.contains_key(name) implies exists|i: int|
        0 <= i < view.len() && (#[trigger] view[i]).0 == name by {
        let i = crate::name_map::index_of(list, name);
        assert(list[i].0@ == name);
        assert(view[i].0 == name);
    }
}

/// A list that names each record of a map once stands for that map.
pub proof fn lemma_listed_records_are_their_model(
    list: Seq<(Seq<char>, Seq<u8>)>,
    records: Map<Seq<char>, Seq<u8>>,
)
    requires
        lists_records(list, records),
    ensures
        records_model(list) == records,
    decreases list.len(),
{
    if list.len() == 0 {
        assert(records =~= Map::<Seq<char>, Seq<u8>>::empty());
    } else {
        let first = list[0];
        let rest = list.drop_first();
        let fewer = records.remove(first.0);
        assert forall|i: int| 0 <= i < rest.len() implies #[trigger] rest[i] == list[i + 1] by {}
        assert forall|i: int, j: int| 0 <= i < rest.len() && 0 <= j < rest.len() && i != j implies (#[trigger] rest[i]).0
            != (#[trigger] rest[j]).0 by {
            assert(rest[i] == list[i + 1] && rest[j] == list[j + 1]);
        }
        assert forall|i: int| 0 <= i < rest.len() implies fewer.contains_key((#[trigger] rest[i]).0) && fewer[rest[i].0]
            == rest[i].1 by {
            assert(rest[i] == list[i + 1]);
            assert(list[i + 1].0 != list[0].0);
        }
        assert forall|name: Seq<char>| #[trigger] fewer.contains_key(name) implies exists|i: int|
            0 <= i < rest.len() && (#[trigger] rest[i]).0 == name by {
            assert(records.contains_key(name));
            let j = choose|j: int| 0 <= j < list.len() && (#[trigger] list[j]).0 == name;
            assert(rest[j - 1] == list[j]);
        }
        lemma_listed_records_are_their_model(rest, fewer);
        assert(records.contains_key(list[0].0));
        assert(fewer.insert(first.0, first.1) =~= records);
    }
}

/// A list that names each kind of a table once, with a list that names each
/// of its records once, stands for that table: a table that is read back
/// from the list that was written for it is the table that was written.
pub proof fn lemma_listed_table_is_its_model(
    list: Seq<(Seq<char>, Seq<(Seq<char>, Seq<u8>)>)>,
    table: Map<Seq<char>, Map<Seq<char>, Seq<u8>>>,
)
    requires
        lists_table(list, table),
    ensures
        table_model(list) == table,
    decreases list.len(),
{
    if list.len() == 0 {
        assert(table =~= Map::<Seq<char>, Map<Seq<char>, Seq<u8>>>::empty());
    } else {
        let first = list[0];
        let rest = list.drop_first();
        let fewer = table.remove(first.0);
        assert forall|i: int| 0 <= i < rest.len() implies #[trigger] rest[i] == list[i + 1] by {}
        assert forall|i: int, j: int| 0 <= i < rest.len() && 0 <= j < rest.len() && i != j implies (#[trigger] rest[i]).0
            != (#[trigger] rest[j]).0 by {
            assert(rest[i] == list[i + 1] && rest[j] == list[j + 1]);
        }
        assert forall|i: int| 0 <= i < rest.len() implies fewer.contains_key((#[trigger] rest[i]).0) && lists_records(
            rest[i].1,
            fewer[rest[i].0],
        ) by {
            assert(rest[i] == list[i + 1]);
            assert(list[i + 1].0 != list[0].0);
        }
        assert forall|kind: Seq<char>| #[trigger] fewer.contains_key(kind) implies exists|i: int|
            0 <= i < rest.len() && (#[trigger] rest[i]).0 == kind by {
            assert(table.contains_key(kind));
            let j = choose|j: int| 0 <= j < list.len() && (#[trigger] list[j]).0 == kind;
            assert(rest[j - 1] == list[j]);
        }
        lemma_listed_table_is_its_model(rest, fewer);
        assert(table.contains_key(list[0].0));
        lemma_listed_records_are_their_model(first.1, table[first.0]);
        assert(fewer.insert(first.0, records_model(first.1)) =~= table);
    }
}

/// A list that names each kind of `table` once and, under it, each record of
/// the kind once.
#[verifier::loop_isolation(false)]
pub fn table_entries(table: BincodeAssetTypeMap) -> (list: Vec<(String, Vec<(String, Vec<u8>)>)>)
    requires
        table.wf(),
        all_records_wf(table@),
    ensures
        lists_table(table_view(list@), table_of(table@)),
{
    let ghost whole = table@;
    let mut rest = table;
    let mut list: Vec<(String, Vec<(String, Vec<u8>)>)> = Vec::new();
    loop
        invariant
            rest.wf(),
            all_records_wf(rest@),
            forall|kind: Seq<char>| #[trigger]
                rest@.contains_key(kind) ==> whole.contains_key(kind) && rest@[kind] == whole[kind],
            forall|i: int, j: int|
                0 <= i < list@.len() && 0 <= j < list@.len() && i != j ==> (#[trigger] list@[i]).0@
                    != (#[trigger] list@[j]).0@,
            forall|i: int|
                0 <= i < list@.len() ==> {
                    &&& whole.contains_key((#[trigger] list@[i]).0@)
                    &&& !rest@.contains_key(list@[i].0@)
                    &&& distinct_names(list@[i].1@)
                    &&& entries_map(list@[i].1@) == whole[list@[i].0@]@
                },
            forall|kind: Seq<char>| #[trigger]
                whole.contains_key(kind) ==> rest@.contains_key(kind) || exists|i: int|
                    0 <= i < list@.len() && (#[trigger] list@[i]).0@ == kind,
        decreases rest.entries().len(),
    {
        match rest.pop() {
            None => {
                break ;
            },
            Some((kind, records)) => {
                let ghost before = list@;
                let entries = records.into_entries();
                list.push((kind, entries));
                proof {
                    let n = before.len() as int;
                    assert(list@[n].0@ == kind@);
                    assert forall|i: int| 0 <= i < n implies list@[i] == before[i] by {}
                    assert forall|other: Seq<char>| #[trigger] whole.contains_key(other) implies rest@.contains_key(
                        other,
                    ) || exists|i: int| 0 <= i < list@.len() && (#[trigger] list@[i]).0@ == other by {
                        if other == kind@ {
                            assert(list@[n].0@ == other);
                        } else if !rest@.contains_key(other) {
                            let i = choose|i: int| 0 <= i < before.len() && (#[trigger] before[i]).0@ == other;
                            assert(list@[i].0@ == other);
                        }
                    }
                }
            },
        }
    }
    proof {
        let view = table_view(list@);
        let model = table_of(whole);
        assert forall|i: int, j: int| 0 <= i < view.len() && 0 <= j < view.len() && i != j implies (
        #[trigger] view[i]).0 != (#[trigger] view[j]).0 by {
            assert(list@[i].0@ != list@[j].0@);
        }
        assert forall|i: int| 0 <= i < view.len() implies model.contains_key((#[trigger] view[i]).0)
            && lists_records(view[i].1, model[view[i].0]) by {
            assert(whole.contains_key(list@[i].0@));
            lemma_distinct_list_lists_records(list@[i].1@);
        }
        assert forall|kind: Seq<char>| #[trigger] model.contains_key(kind) implies exists|i: int|
            0 <= i < view.len() && (#[trigger] view[i]).0 == kind by {
            assert(whole.contains_key(kind));
            let i = choose|i: int| 0 <= i < list@.len() && (#[trigger] list@[i]).0@ == kind;
            assert(view[i].0 == kind);
        }
    }
    list
}

/// The bytes of `table`: bincode's encoding of a list that names each kind
/// of the table once and, under it, each record of the kind once.
pub fn encode_table(table: BincodeAssetTypeMap) -> (bytes: Vec<u8>)
    requires
        table.wf(),
        all_records_wf(table@),
    ensures
        exists|list: Seq<(Seq<char>, Seq<(Seq<char>, Seq<u8>)>)>|
            lists_table(list, table_of(table@)) && bytes@ == #[trigger] bincode_encoding(list),
{
    let list = table_entries(table);
    match bincode_serialize(&list) {
        Ok(bytes) => bytes,
        Err(_) => vstd::pervasive::unreached(),
    }
}

/// The map of records that `list` stands for.
#[verifier::loop_isolation(false)]
pub fn records_from_entries(list: Vec<(String, Vec<u8>)>) -> (records: BincodeAssetMap)
    ensures
        records.wf(),
        bytes_of(records@) == records_model(records_view(list@)),
{
    let ghost whole = records_view(list@);
    let mut rest = list;
    let mut records: BincodeAssetMap = NameMap::new();
    assert(whole.subrange(whole.len() as int, whole.len() as int) =~= Seq::empty());
    assert(bytes_of(records@) =~= records_model(Seq::empty()));
    loop
        invariant
            records.wf(),
            rest@.len() <= whole.len(),
            records_view(rest@) == whole.subrange(0, rest@.len() as int),
            bytes_of(records@) == records_model(whole.subrange(rest@.len() as int, whole.len() as int)),
        decreases rest@.len(),
    {
        let ghost before = rest@;
        let ghost held = records@;
        match rest.pop() {
            None => {
                assert(whole.subrange(0, whole.len() as int) =~= whole);
                return records;
            },
            Some((name, bytes)) => {
                let n = rest.len();
                proof {
                    let tail = whole.subrange(n as int, whole.len() as int);
                    assert(tail.drop_first() =~= whole.subrange(n + 1, whole.len() as int));
                    assert(records_view(before)[n as int] == whole[n as int]);
                    assert(tail[0] == (name@, bytes@));
                    assert(records_view(rest@) =~= whole.subrange(0, n as int));
                }
                if !records.contains_key(&name) {
                    records.insert(name, bytes);
                    assert(bytes_of(records@) =~= bytes_of(held).insert(name@, bytes@));
                }
            },
        }
    }
}

/// The table that `list` stands for.
#[verifier::loop_isolation(false)]
pub fn table_from_entries(list: Vec<(String, Vec<(String, Vec<u8>)>)>) -> (table: BincodeAssetTypeMap)
    ensures
        table.wf(),
        all_records_wf(table@),
        table_of(table@) == table_model(table_view(list@)),
{
    let ghost whole = table_view(list@);
    let mut rest = list;
    let mut table: BincodeAssetTypeMap = NameMap::new();
    assert(whole.subrange(whole.len() as int, whole.len() as int) =~= Seq::empty());
    assert(table_of(table@) =~= table_model(Seq::empty()));
    loop
        invariant
            table.wf(),
            all_records_wf(table@),
            rest@.len() <= whole.len(),
            table_view(rest@) == whole.subrange(0, rest@.len() as int),
            table_of(table@) == table_model(whole.subrange(rest@.len() as int, whole.len() as int)),
        decreases rest@.len(),
    {
        let ghost before = rest@;
        let ghost held = table@;
        match rest.pop() {
            None => {
                assert(whole.subrange(0, whole.len() as int) =~= whole);
                return table;
            },
            Some((kind, entries)) => {
                let n = rest.len();
                proof {
                    let tail = whole.subrange(n as int, whole.len() as int);
                    assert(tail.drop_first() =~= whole.subrange(n + 1, whole.len() as int));
                    assert(table_view(before)[n as int] == whole[n as int]);
                    assert(tail[0] == (kind@, records_view(entries@)));
                    assert(table_view(rest@) =~= whole.subrange(0, n as int));
                }
                if !table.contains_key(&kind) {
                    let records = records_from_entries(entries);
                    table.insert(kind, records);
                    assert(table_of(table@) =~= table_of(held).insert(kind@, bytes_of(records@)));
                }
            },
        }
    }
}

/// Reads a table from `bytes`: the table that the list stands for which
/// bincode reads from them. It fails exactly where bincode does. From the
/// bytes that were written for a table it reads that table.
pub fn decode_table(bytes: &[u8]) -> (r: Result<BincodeAssetTypeMap, PipelineError>)
    ensures
        match r {
            Ok(table) => {
                &&& table.wf()
                &&& all_records_wf(table@)
                &&& bincode_decoding(bytes@) matches Some(list) && table_of(table@) == table_model(list)
            },
            Err(e) => e == PipelineError::BinaryDecode && bincode_decoding(bytes@) is None,
        },
        forall|list: Seq<(Seq<char>, Seq<(Seq<char>, Seq<u8>)>)>|
            bytes@ == #[trigger] bincode_encoding(list) ==> bincode_decoding(bytes@) == Some(list),
        forall|list: Seq<(Seq<char>, Seq<(Seq<char>, Seq<u8>)>)>, written: Map<Seq<char>, Map<Seq<char>, Seq<u8>>>|
            #![trigger bincode_encoding(list), lists_table(list, written)]
            bytes@ == bincode_encoding(list) && lists_table(list, written) ==> r is Ok && table_of(r.unwrap()@)
                == written,
{
    let r = bincode_deserialize(bytes);
    proof {
        assert forall|list: Seq<(Seq<char>, Seq<(Seq<char>, Seq<u8>)>)>, written: Map<Seq<char>, Map<Seq<char>, Seq<u8>>>|
            #![trigger bincode_encoding(list), lists_table(list, written)]
            bytes@ == bincode_encoding(list) && lists_table(list, written) implies table_model(list) == written by {
            lemma_listed_table_is_its_model(list, written);
        }
    }
    match r {
        Ok(list) => Ok(table_from_entries(list)),
        Err(_) => Err(PipelineError::BinaryDecode),
    }
}

} // verus!
