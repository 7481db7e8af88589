//! The hash table that holds the loaded chunks.

use crate::grid::MapChunk;
use bevy::utils::hashbrown::HashMap;
use vstd::prelude::*;

verus! {

/// The loaded chunks in a hash table, keyed by chunk position. The table is
/// a `hashbrown::HashMap`; nothing here is proved of it, and the functions
/// below say what its methods are taken to do.
#[verifier::external_body]
pub struct ChunkTable {
    inner: HashMap<(i32, i32), MapChunk>,
}

/// What a chunk table holds: the chunk stored under each position.
pub uninterp spec fn table_contents(table: ChunkTable) -> Map<(i32, i32), MapChunk>;

/// `HashMap::new`: a table that holds nothing.
#[verifier::external_body]
pub(crate) fn table_new() -> (table: ChunkTable)
    ensures
        table_contents(table) =~= Map::empty(),
{
    ChunkTable { inner: HashMap::new() }
}

/// `HashMap::get`: the chunk stored under `key`, if there is one. The table
/// is left as it was.
#[verifier::external_body]
pub(crate) fn table_get(table: &ChunkTable, key: (i32, i32)) -> (chunk: Option<&MapChunk>)
    ensures
        chunk.is_some() == table_contents(*table).contains_key(key),
        chunk.is_some() ==> *chunk.unwrap() == table_contents(*table)[key],
{
    table.inner.get(&key)
}

/// `HashMap::insert`: stores `chunk` under `key` and hands back the chunk
/// that was stored there before, if there was one. Other keys keep their
/// chunks.
#[verifier::external_body]
pub(crate) fn table_insert(table: &mut ChunkTable, key: (i32, i32), chunk: MapChunk) -> (previous:
    Option<MapChunk>)
    ensures
        table_contents(*final(table)) == table_contents(*old(table)).insert(key, chunk),
        previous.is_some() == table_contents(*old(table)).contains_key(key),
        previous.is_some() ==> previous.unwrap() == table_contents(*old(table))[key],
{
    table.inner.insert(key, chunk)
}

/// `HashMap::remove`: takes the chunk stored under `key` out of the table
/// and hands it back, if there is one. Other keys keep their chunks.
#[verifier::external_body]
pub(crate) fn table_remove(table: &mut ChunkTable, key: (i32, i32)) -> (removed: Option<MapChunk>)
    ensures
        table_contents(*final(table)) == table_contents(*old(table)).remove(key),
        removed.is_some() == table_contents(*old(table)).contains_key(key),
        removed.is_some() ==> removed.unwrap() == table_contents(*old(table))[key],
{
    table.inner.remove(&key)
}

/// `HashMap::keys`: every key of the table once, in the order in which the
/// table happens to walk them. Nothing is said of that order.
#[verifier::external_body]
pub(crate) fn table_keys(table: &ChunkTable) -> (keys: Vec<(i32, i32)>)
    ensures
        keys@.no_duplicates(),
        forall|key: (i32, i32)| keys@.contains(key) <==> table_contents(*table).contains_key(key),
{
    table.inner.keys().copied().collect()
}

} // verus!
