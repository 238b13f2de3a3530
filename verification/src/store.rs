use vstd::prelude::*;

verus! {

#[verifier::external_type_specification]
#[verifier::external_body]
pub struct ExDb(sled::Db);

#[verifier::external_type_specification]
#[verifier::external_body]
pub struct ExStoreError(sled::Error);

/// What a store holds: its keys, each with the bytes kept under it. The
/// contracts below take the handle for the only one that writes to the
/// store.
pub uninterp spec fn db_entries(db: sled::Db) -> Map<Seq<u8>, Seq<u8>>;

/// Trusted: `sled::Tree::get` on the default tree of the store, the value
/// copied out with `to_vec`. On success the answer is the bytes kept under
/// the key, or `None` where the store has no such key.
#[verifier::external_body]
pub(crate) fn db_get(db: &sled::Db, key: &[u8]) -> (found: Result<Option<Vec<u8>>, sled::Error>)
    ensures
        found matches Ok(value) ==> match value {
            Some(bytes) => db_entries(*db).contains_key(key@) && db_entries(*db)[key@] == bytes@,
            None => !db_entries(*db).contains_key(key@),
        },
{
    match db.get(key) {
        Ok(Some(value)) => Ok(Some(value.to_vec())),
        Ok(None) => Ok(None),
        Err(e) => Err(e),
    }
}

/// Trusted: `sled::Tree::insert` on the default tree of the store. On
/// success the store holds `value` under `key` and is otherwise as before.
/// Nothing is claimed of the store after a failure.
#[verifier::external_body]
pub(crate) fn db_insert(db: &mut sled::Db, key: &[u8], value: &[u8]) -> (done: Result<
    (),
    sled::Error,
>)
    ensures
        done is Ok ==> db_entries(*final(db)) == db_entries(*old(db)).insert(key@, value@),
{
    match db.insert(key, value) {
        Ok(_) => Ok(()),
        Err(e) => Err(e),
    }
}

/// Trusted: `sled::Tree::flush` on the store. What the store holds is the
/// same before and after, whether the flush succeeds or not.
#[verifier::external_body]
pub(crate) fn db_flush(db: &mut sled::Db) -> (done: Result<(), sled::Error>)
    ensures
        db_entries(*final(db)) == db_entries(*old(db)),
{
    match db.flush() {
        Ok(_) => Ok(()),
        Err(e) => Err(e),
    }
}

/// The keys of a list of pairs, each by its view.
pub open spec fn item_key(items: Seq<(Vec<u8>, Vec<u8>)>, i: int) -> Seq<u8> {
    items[i].0@
}

/// Whether `a` comes before `b` in the order of the store: byte by byte,
/// a shorter key before the longer ones that start with it.
pub open spec fn key_before(a: Seq<u8>, b: Seq<u8>) -> bool
    decreases a.len(),
{
    if b.len() == 0 {
        false
    } else if a.len() == 0 {
        true
    } else if a[0] != b[0] {
        a[0] < b[0]
    } else {
        key_before(a.drop_first(), b.drop_first())
    }
}

/// The list holds what the store holds, in the order of the store: every
/// pair of the list is in the store, every key of the store is in the
/// list, no key comes twice, and the keys ascend.
pub open spec fn lists_entries(
    items: Seq<(Vec<u8>, Vec<u8>)>,
    entries: Map<Seq<u8>, Seq<u8>>,
) -> bool {
    &&& forall|i: int|
        0 <= i < items.len() ==> entries.contains_key(#[trigger] item_key(items, i))
            && entries[item_key(items, i)] == items[i].1@
    &&& forall|key: Seq<u8>| #[trigger]
        entries.contains_key(key) ==> exists|i: int|
            0 <= i < items.len() && #[trigger] item_key(items, i) == key
    &&& forall|i: int, j: int|
        0 <= i < items.len() && 0 <= j < items.len() && i != j ==> #[trigger] item_key(items, i)
            != #[trigger] item_key(items, j)
    &&& forall|i: int, j: int|
        0 <= i < j < items.len() ==> key_before(
            #[trigger] item_key(items, i),
            #[trigger] item_key(items, j),
        )
}

/// Trusted: `sled::Tree::iter` on the default tree of the store, run to its
/// end, each key and value copied out with `to_vec`. On success the list
/// holds every key of the store once, with the bytes kept under it, the
/// keys in ascending order byte by byte.
#[verifier::external_body]
pub(crate) fn db_items(db: &sled::Db) -> (items: Result<Vec<(Vec<u8>, Vec<u8>)>, sled::Error>)
    ensures
        items matches Ok(list) ==> lists_entries(list@, db_entries(*db)),
{
    db.iter().map(|item| item.map(|(key, value)| (key.to_vec(), value.to_vec()))).collect()
}

/// What a store without keys holds.
pub open spec fn empty_store() -> Map<Seq<u8>, Seq<u8>> {
    Map::empty()
}

/// Trusted: `sled::Tree::clear` on the default tree of the store. On
/// success the store holds nothing. Nothing is claimed of the store after
/// a failure.
#[verifier::external_body]
pub(crate) fn db_clear(db: &mut sled::Db) -> (done: Result<(), sled::Error>)
    ensures
        done is Ok ==> db_entries(*final(db)) == empty_store(),
{
    db.clear()
}

} // verus!
