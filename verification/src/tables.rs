use crate::models::{Entity, EntityView, RelationView};
use dashmap::DashMap;
use vstd::prelude::*;

verus! {

/// The concurrent hash map of the `dashmap` crate.
#[verifier::external_type_specification]
#[verifier::external_body]
#[verifier::reject_recursive_types(K)]
#[verifier::reject_recursive_types(V)]
#[verifier::reject_recursive_types(S)]
pub struct ExDashMap<K, V, S>(DashMap<K, V, S>);

/// The key of a stored relation: source, target and type.
pub type RelationKey = (String, String, String);

/// What an entity table holds: the entity stored under each name.
pub uninterp spec fn entity_table(m: DashMap<String, Entity>) -> Map<Seq<char>, EntityView>;

/// What a relation table holds: the set of stored relation keys.
pub uninterp spec fn relation_table(m: DashMap<RelationKey, ()>) -> Set<RelationView>;

/// Views a list of entries taken out of an entity table.
pub open spec fn entry_names(v: Seq<(String, Entity)>) -> Seq<Seq<char>> {
    v.map_values(|e: (String, Entity)| e.0@)
}

/// Views a list of relation keys.
pub open spec fn relation_keys_view(v: Seq<RelationKey>) -> Seq<RelationView> {
    v.map_values(|k: RelationKey| k@)
}

/// `DashMap::new`: a map that holds nothing.
#[verifier::external_body]
pub(crate) fn entity_table_new() -> (r: DashMap<String, Entity>)
    ensures
        entity_table(r).is_empty(),
{
    DashMap::new()
}

/// `DashMap::get`, with the value copied out: the entity stored under `name`, if any.
#[verifier::external_body]
pub(crate) fn entity_table_get(m: &DashMap<String, Entity>, name: &str) -> (r: Option<Entity>)
    ensures
        match r {
            Some(e) => entity_table(*m).contains_key(name@) && e@ == entity_table(*m)[name@],
            None => !entity_table(*m).contains_key(name@),
        },
{
    m.get(name).map(|entry| entry.value().clone())
}

/// `DashMap::contains_key`: whether an entity is stored under `name`.
#[verifier::external_body]
pub(crate) fn entity_table_contains(m: &DashMap<String, Entity>, name: &str) -> (r: bool)
    ensures
        r == entity_table(*m).contains_key(name@),
{
    m.contains_key(name)
}

/// `DashMap::insert`: stores `e` under `name`, replacing what was there.
#[verifier::external_body]
pub(crate) fn entity_table_insert(m: &mut DashMap<String, Entity>, name: String, e: Entity)
    ensures
        entity_table(*final(m)) == entity_table(*old(m)).insert(name@, e@),
{
    m.insert(name, e);
}

/// `DashMap::remove`: drops what is stored under `name`; tells whether there was something.
#[verifier::external_body]
pub(crate) fn entity_table_remove(m: &mut DashMap<String, Entity>, name: &str) -> (r: bool)
    ensures
        r == entity_table(*old(m)).contains_key(name@),
        entity_table(*final(m)) == entity_table(*old(m)).remove(name@),
{
    m.remove(name).is_some()
}

/// `DashMap::iter`, each entry copied out as (name, entity). Every stored name comes
/// out exactly once; the order is that of the map's shards and hashes, which is not stated.
#[verifier::external_body]
pub(crate) fn entity_table_entries(m: &DashMap<String, Entity>) -> (r: Vec<(String, Entity)>)
    ensures
        entry_names(r@).no_duplicates(),
        entry_names(r@).to_set() == entity_table(*m).dom(),
        forall|i: int|
            0 <= i < r@.len() ==> #[trigger] r@[i].1@ == entity_table(*m)[r@[i].0@],
{
    m.iter().map(|entry| (entry.key().clone(), entry.value().clone())).collect()
}

/// `DashMap::new`: a relation table that holds nothing.
#[verifier::external_body]
pub(crate) fn relation_table_new() -> (r: DashMap<RelationKey, ()>)
    ensures
        relation_table(r).is_empty(),
{
    DashMap::new()
}

/// `DashMap::insert` of a key with the unit value; tells whether the key is new.
#[verifier::external_body]
pub(crate) fn relation_table_insert(m: &mut DashMap<RelationKey, ()>, k: RelationKey) -> (r: bool)
    ensures
        r == !relation_table(*old(m)).contains(k@),
        relation_table(*final(m)) == relation_table(*old(m)).insert(k@),
{
    m.insert(k, ()).is_none()
}

/// `DashMap::remove`: drops the key; tells whether it was stored.
#[verifier::external_body]
pub(crate) fn relation_table_remove(m: &mut DashMap<RelationKey, ()>, k: &RelationKey) -> (r: bool)
    ensures
        r == relation_table(*old(m)).contains(k@),
        relation_table(*final(m)) == relation_table(*old(m)).remove(k@),
{
    m.remove(k).is_some()
}

/// `DashMap::iter`, each key copied out. Every stored key comes out exactly once;
/// the order is not stated.
#[verifier::external_body]
pub(crate) fn relation_table_keys(m: &DashMap<RelationKey, ()>) -> (r: Vec<RelationKey>)
    ensures
        relation_keys_view(r@).no_duplicates(),
        relation_keys_view(r@).to_set() == relation_table(*m),
{
    m.iter().map(|entry| entry.key().clone()).collect()
}

} // verus!
