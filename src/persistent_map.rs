//! The persistent map that holds an environment's bindings, so that the many
//! environments kept while a body is analyzed share their structure.

use vstd::prelude::*;
use crate::environment::{keys_unique, map_of};
use crate::expression::Expression;
use crate::path::Path;

verus! {

/// A persistent map from paths to values: `rpds::HashTrieMap`, which Verus
/// cannot take as a declared type, held in a field that Verus does not see.
#[verifier::external_body]
pub struct PathTrie {
    map: rpds::HashTrieMap<Path, Expression>,
}

/// The bindings a map holds.
pub uninterp spec fn trie_bindings(m: PathTrie) -> Map<Path, Expression>;

/// Relies on `rpds::HashTrieMap::new`: a new map is empty.
#[verifier::external_body]
pub(crate) fn trie_new() -> (r: PathTrie)
    ensures
        trie_bindings(r).dom() == Set::<Path>::empty(),
{
    PathTrie { map: rpds::HashTrieMap::new() }
}

/// Relies on `rpds::HashTrieMap::get`: the value bound to the key, if any.
#[verifier::external_body]
pub(crate) fn trie_get<'a>(m: &'a PathTrie, key: &Path) -> (r: Option<&'a Expression>)
    ensures
        match r {
            Some(v) => trie_bindings(*m).contains_key(*key) && trie_bindings(*m)[*key] == *v,
            None => !trie_bindings(*m).contains_key(*key),
        },
{
    m.map.get(key)
}

/// Relies on `rpds::HashTrieMap::insert_mut`: binds the key, replacing any
/// earlier binding.
#[verifier::external_body]
pub(crate) fn trie_insert(m: &mut PathTrie, key: Path, value: Expression)
    ensures
        trie_bindings(*final(m)) == trie_bindings(*old(m)).insert(key, value),
{
    m.map.insert_mut(key, value)
}

/// Relies on `rpds::HashTrieMap::remove_mut`: drops the key's binding, if any.
#[verifier::external_body]
pub(crate) fn trie_remove(m: &mut PathTrie, key: &Path)
    ensures
        trie_bindings(*final(m)) == trie_bindings(*old(m)).remove(*key),
{
    m.map.remove_mut(key);
}

/// Relies on `rpds::HashTrieMap::clone`: the copy shares the bindings.
#[verifier::external_body]
pub(crate) fn trie_clone(m: &PathTrie) -> (r: PathTrie)
    ensures
        trie_bindings(r) == trie_bindings(*m),
{
    PathTrie { map: m.map.clone() }
}

/// Relies on `rpds::HashTrieMap::iter`: each binding once, in some order.
#[verifier::external_body]
pub(crate) fn trie_entries(m: &PathTrie) -> (r: Vec<(Path, Expression)>)
    ensures
        keys_unique(r@),
        map_of(r@) == trie_bindings(*m),
{
    m.map.iter().map(|(k, v)| (k.duplicate(), v.duplicate())).collect()
}

/// A persistent map from blocks to conditions: `rpds::HashTrieMap`, held
/// as `PathTrie` holds its map.
#[verifier::external_body]
pub struct BlockTrie {
    map: rpds::HashTrieMap<u64, Expression>,
}

/// The bindings a block map holds.
pub uninterp spec fn block_trie_bindings(m: BlockTrie) -> Map<u64, Expression>;

/// Relies on `rpds::HashTrieMap::new`: a new map is empty.
#[verifier::external_body]
pub(crate) fn block_trie_new() -> (r: BlockTrie)
    ensures
        block_trie_bindings(r).dom() == Set::<u64>::empty(),
{
    BlockTrie { map: rpds::HashTrieMap::new() }
}

/// Relies on `rpds::HashTrieMap::get`: the value bound to the key, if any.
#[verifier::external_body]
pub(crate) fn block_trie_get<'a>(m: &'a BlockTrie, key: u64) -> (r: Option<&'a Expression>)
    ensures
        match r {
            Some(v) => block_trie_bindings(*m).contains_key(key) && block_trie_bindings(*m)[key] == *v,
            None => !block_trie_bindings(*m).contains_key(key),
        },
{
    m.map.get(&key)
}

/// Relies on `rpds::HashTrieMap::insert_mut`: binds the key, replacing any
/// earlier binding.
#[verifier::external_body]
pub(crate) fn block_trie_insert(m: &mut BlockTrie, key: u64, value: Expression)
    ensures
        block_trie_bindings(*final(m)) == block_trie_bindings(*old(m)).insert(key, value),
{
    m.map.insert_mut(key, value)
}

/// Relies on `rpds::HashTrieMap::clone`: the copy shares the bindings.
#[verifier::external_body]
pub(crate) fn block_trie_clone(m: &BlockTrie) -> (r: BlockTrie)
    ensures
        block_trie_bindings(r) == block_trie_bindings(*m),
{
    BlockTrie { map: m.map.clone() }
}

} // verus!
