use crate::models::{
    entities_view, lemma_strings_view_push, relations_view, strings_contain, strings_view, Entity,
    EntityView, Graph, Relation, RelationView,
};
use crate::graph_laws::{
    lemma_absorb_unchanged, lemma_search_finds_hits, lemma_merge_same_length, lemma_without_exact,
};
use crate::text::{
    ascii_lowercase, concat, contains_str, is_ascii_text, lowercase, occurs_in, to_lowercase,
};
use crate::tables::{
    entity_table, entity_table_contains, entity_table_get, entity_table_insert, entity_table_new,
    entity_table_entries, entity_table_remove, entry_names, relation_keys_view, relation_table, relation_table_insert,
    relation_table_keys, relation_table_new, relation_table_remove, RelationKey,
};
use dashmap::DashMap;
use vstd::prelude::*;

verus! {

/// The abstract state of a memory graph: entities by name, the set of relations,
/// and whether something changed since the last save.
pub struct GraphView {
    pub entities: Map<Seq<char>, EntityView>,
    pub relations: Set<RelationView>,
    pub dirty: bool,
}

/// A well-formed graph stores each entity under its own name, and every relation
/// joins two stored entities.
pub open spec fn graph_wf(g: GraphView) -> bool {
    &&& forall|n: Seq<char>| #[trigger] g.entities.contains_key(n) ==> g.entities[n].name == n
    &&& forall|r: RelationView|
        #[trigger] g.relations.contains(r) ==> g.entities.contains_key(r.0)
            && g.entities.contains_key(r.1)
}

/// The observations after appending, in order, each incoming one that is not there yet.
pub open spec fn merge_observations(existing: Seq<Seq<char>>, incoming: Seq<Seq<char>>) -> Seq<
    Seq<char>,
>
    decreases incoming.len(),
{
    if incoming.len() == 0 {
        existing
    } else {
        let prev = merge_observations(existing, incoming.drop_last());
        if prev.contains(incoming.last()) {
            prev
        } else {
            prev.push(incoming.last())
        }
    }
}

/// Folds one incoming entity into the entity map: a new name is stored as given; a
/// known name takes the incoming type and gains the incoming observations it lacks.
/// The flag tells whether the stored entity changed.
pub open spec fn absorb_entity(m: Map<Seq<char>, EntityView>, e: EntityView) -> (Map<
    Seq<char>,
    EntityView,
>, bool) {
    if m.contains_key(e.name) {
        let old = m[e.name];
        let obs = merge_observations(old.observations, e.observations);
        let changed = old.entity_type != e.entity_type || obs.len() != old.observations.len();
        (
            m.insert(
                e.name,
                EntityView { name: e.name, entity_type: e.entity_type, observations: obs },
            ),
            changed,
        )
    } else {
        (m.insert(e.name, e), true)
    }
}

/// Folds a list of entities into the entity map, first to last; the flag tells
/// whether any step changed it.
pub open spec fn absorb_entities(m: Map<Seq<char>, EntityView>, es: Seq<EntityView>) -> (Map<
    Seq<char>,
    EntityView,
>, bool)
    decreases es.len(),
{
    if es.len() == 0 {
        (m, false)
    } else {
        let prev = absorb_entities(m, es.drop_last());
        let step = absorb_entity(prev.0, es.last());
        (step.0, prev.1 || step.1)
    }
}

/// Merging only appends: the existing observations stay a prefix.
pub proof fn lemma_merge_extends(existing: Seq<Seq<char>>, incoming: Seq<Seq<char>>)
    ensures
        merge_observations(existing, incoming).len() >= existing.len(),
        merge_observations(existing, incoming).subrange(0, existing.len() as int) == existing,
    decreases incoming.len(),
{
    if incoming.len() > 0 {
        lemma_merge_extends(existing, incoming.drop_last());
        let prev = merge_observations(existing, incoming.drop_last());
        assert(prev.push(incoming.last()).subrange(0, existing.len() as int) =~= prev.subrange(
            0,
            existing.len() as int,
        ));
    }
}

/// Appends to `existing` each string of `incoming` that it does not hold yet, in order;
/// tells whether anything was appended.
fn merge_observations_into(existing: &mut Vec<String>, incoming: &Vec<String>) -> (grew: bool)
    ensures
        strings_view(final(existing)@) == merge_observations(
            strings_view(old(existing)@),
            strings_view(incoming@),
        ),
        grew == (final(existing)@.len() != old(existing)@.len()),
{
    let ghost start = strings_view(existing@);
    let mut grew = false;
    for i in 0..incoming.len()
        invariant
            strings_view(existing@) == merge_observations(
                start,
                strings_view(incoming@).take(i as int),
            ),
            start == strings_view(old(existing)@),
            grew == (existing@.len() != old(existing)@.len()),
            existing@.len() >= old(existing)@.len(),
    {
        let ghost inc = strings_view(incoming@);
        proof {
            assert(inc.take(i + 1).drop_last() =~= inc.take(i as int));
            assert(inc.take(i + 1).last() == incoming@[i as int]@);
        }
        if !strings_contain(existing, &incoming[i]) {
            let c = incoming[i].clone();
            proof {
                lemma_strings_view_push(existing@, c);
            }
            existing.push(c);
            grew = true;
        }
    }
    proof {
        assert(strings_view(incoming@).take(incoming@.len() as int) =~= strings_view(incoming@));
    }
    grew
}

/// The relations of `rs` whose two ends are stored in `ents`.
pub open spec fn admitted_relations(ents: Map<Seq<char>, EntityView>, rs: Seq<RelationView>) -> Set<
    RelationView,
> {
    rs.to_set().filter(|r: RelationView| ents.contains_key(r.0) && ents.contains_key(r.1))
}

/// The observations of `obs` that are not in `removals`, in their order.
pub open spec fn without(obs: Seq<Seq<char>>, removals: Seq<Seq<char>>) -> Seq<Seq<char>>
    decreases obs.len(),
{
    if obs.len() == 0 {
        obs
    } else {
        let prev = without(obs.drop_last(), removals);
        if removals.contains(obs.last()) {
            prev
        } else {
            prev.push(obs.last())
        }
    }
}

/// The stored entities named in `names`, in the order of `names`; names that are not
/// stored are skipped.
pub open spec fn lookup_entities(ents: Map<Seq<char>, EntityView>, names: Seq<Seq<char>>) -> Seq<
    EntityView,
>
    decreases names.len(),
{
    if names.len() == 0 {
        Seq::empty()
    } else {
        let prev = lookup_entities(ents, names.drop_last());
        if ents.contains_key(names.last()) {
            prev.push(ents[names.last()])
        } else {
            prev
        }
    }
}

/// The names stored in `names` that `delete_entities` removes from `ents`.
pub open spec fn removed_names(ents: Map<Seq<char>, EntityView>, names: Seq<Seq<char>>) -> Set<
    Seq<char>,
> {
    names.to_set().intersect(ents.dom())
}

/// The relations of `rels` with neither end in `names`.
pub open spec fn relations_avoiding(rels: Set<RelationView>, names: Set<Seq<char>>) -> Set<
    RelationView,
> {
    rels.filter(|r: RelationView| !names.contains(r.0) && !names.contains(r.1))
}

/// A lemma: the set of a list with one more element.
pub proof fn lemma_push_to_set<A>(s: Seq<A>, x: A)
    ensures
        s.push(x).to_set() == s.to_set().insert(x),
{
    assert forall|a: A| s.push(x).to_set().contains(a) <==> s.to_set().insert(x).contains(a) by {
        if s.push(x).contains(a) && a != x {
            let k = choose|k: int| 0 <= k < s.push(x).len() && s.push(x)[k] == a;
            assert(s[k] == a);
        }
        if s.contains(a) {
            let k = choose|k: int| 0 <= k < s.len() && s[k] == a;
            assert(s.push(x)[k] == a);
        }
        if a == x {
            assert(s.push(x)[s.len() as int] == x);
        }
    }
    assert(s.push(x).to_set() =~= s.to_set().insert(x));
}

/// The graph after `create_entities(es)`.
pub open spec fn after_create_entities(g: GraphView, es: Seq<EntityView>) -> GraphView {
    let folded = absorb_entities(g.entities, es);
    GraphView { entities: folded.0, relations: g.relations, dirty: g.dirty || folded.1 }
}

/// The graph after `create_relations(rs)`.
pub open spec fn after_create_relations(g: GraphView, rs: Seq<RelationView>) -> GraphView {
    let added = admitted_relations(g.entities, rs);
    GraphView {
        entities: g.entities,
        relations: g.relations.union(added),
        dirty: g.dirty || !added.subset_of(g.relations),
    }
}

/// The graph after `delete_relations(rs)`.
pub open spec fn after_delete_relations(g: GraphView, rs: Seq<RelationView>) -> GraphView {
    GraphView {
        entities: g.entities,
        relations: g.relations.difference(rs.to_set()),
        dirty: g.dirty || !g.relations.intersect(rs.to_set()).is_empty(),
    }
}

/// The graph after `add_observations(name, obs)`.
pub open spec fn after_add_observations(g: GraphView, name: Seq<char>, obs: Seq<Seq<char>>) -> GraphView {
    if g.entities.contains_key(name) {
        let e = g.entities[name];
        let merged = merge_observations(e.observations, obs);
        GraphView {
            entities: g.entities.insert(name, EntityView { observations: merged, ..e }),
            relations: g.relations,
            dirty: g.dirty || merged.len() != e.observations.len(),
        }
    } else {
        g
    }
}

/// Whether `delete_observations(name, obs)` removes something.
pub open spec fn removes_observations(g: GraphView, name: Seq<char>, obs: Seq<Seq<char>>) -> bool {
    g.entities.contains_key(name) && without(g.entities[name].observations, obs).len()
        != g.entities[name].observations.len()
}

/// The graph after `delete_observations(name, obs)`.
pub open spec fn after_delete_observations(g: GraphView, name: Seq<char>, obs: Seq<Seq<char>>) -> GraphView {
    if g.entities.contains_key(name) {
        let e = g.entities[name];
        GraphView {
            entities: g.entities.insert(
                name,
                EntityView { observations: without(e.observations, obs), ..e },
            ),
            relations: g.relations,
            dirty: g.dirty || removes_observations(g, name, obs),
        }
    } else {
        g
    }
}

/// The graph after `delete_entities(names)`.
pub open spec fn after_delete_entities(g: GraphView, names: Seq<Seq<char>>) -> GraphView {
    let gone = removed_names(g.entities, names);
    GraphView {
        entities: g.entities.remove_keys(gone),
        relations: relations_avoiding(g.relations, gone),
        dirty: g.dirty || !gone.is_empty(),
    }
}

/// No change of content goes unrecorded: either the later graph is marked changed, or
/// its entities and relations are those of the earlier one.
pub open spec fn change_recorded(before: GraphView, after: GraphView) -> bool {
    after.dirty || (after.entities == before.entities && after.relations == before.relations)
}

/// The names of a list of entities.
pub open spec fn names_of(es: Seq<EntityView>) -> Seq<Seq<char>> {
    es.map_values(|e: EntityView| e.name)
}

/// `es` lists the entities of `m`: each stored entity exactly once, in some order.
pub open spec fn lists_entities(m: Map<Seq<char>, EntityView>, es: Seq<EntityView>) -> bool {
    &&& names_of(es).no_duplicates()
    &&& names_of(es).to_set() == m.dom()
    &&& forall|i: int| 0 <= i < es.len() ==> m[#[trigger] es[i].name] == es[i]
}

/// `rs` lists the relations of `s`: each exactly once, in some order.
pub open spec fn lists_relations(s: Set<RelationView>, rs: Seq<RelationView>) -> bool {
    &&& rs.no_duplicates()
    &&& rs.to_set() == s
}

/// Whether a search for the lowercased query `q` finds the entity: `q` occurs in the
/// lowercased name, type or one of the lowercased observations.
pub open spec fn entity_matches(e: EntityView, q: Seq<char>) -> bool {
    ||| occurs_in(q, lowercase(e.name))
    ||| occurs_in(q, lowercase(e.entity_type))
    ||| exists|i: int|
        0 <= i < e.observations.len() && occurs_in(q, lowercase(#[trigger] e.observations[i]))
}

/// The stored entities that a search for the lowercased query `q` finds.
pub open spec fn matching_entities(m: Map<Seq<char>, EntityView>, q: Seq<char>) -> Map<
    Seq<char>,
    EntityView,
> {
    m.restrict(m.dom().filter(|n: Seq<char>| entity_matches(m[n], q)))
}

/// An empty query finds every stored entity, and every relation of a well-formed
/// graph touches one that it finds.
pub proof fn lemma_empty_query_finds_all(g: GraphView, q: Seq<char>)
    requires
        graph_wf(g),
        q.len() == 0,
    ensures
        matching_entities(g.entities, q) == g.entities,
        relations_touching(g.relations, matching_entities(g.entities, q).dom()) == g.relations,
{
    assert forall|n: Seq<char>| g.entities.contains_key(n) implies entity_matches(
        g.entities[n],
        q,
    ) by {
        let h = lowercase(g.entities[n].name);
        assert(h.subrange(0int, 0int + q.len()) =~= q);
        assert(occurs_in(q, h));
    }
    assert(g.entities.dom().filter(|n: Seq<char>| entity_matches(g.entities[n], q))
        =~= g.entities.dom());
    assert(matching_entities(g.entities, q) =~= g.entities);
    assert(relations_touching(g.relations, g.entities.dom()) =~= g.relations);
}

/// The relations of `rels` with at least one end in `names`.
pub open spec fn relations_touching(rels: Set<RelationView>, names: Set<Seq<char>>) -> Set<
    RelationView,
> {
    rels.filter(|r: RelationView| names.contains(r.0) || names.contains(r.1))
}

/// The messages for the missing ends of one relation: its source first, then its target.
pub open spec fn missing_ends(ents: Map<Seq<char>, EntityView>, r: RelationView) -> Seq<Seq<char>> {
    (if ents.contains_key(r.0) {
        Seq::empty()
    } else {
        seq!["Relation from non-existent entity: "@ + r.0]
    }) + (if ents.contains_key(r.1) {
        Seq::empty()
    } else {
        seq!["Relation to non-existent entity: "@ + r.1]
    })
}

/// The messages for the missing ends of the relations, in their order.
pub open spec fn dangling_messages(ents: Map<Seq<char>, EntityView>, rs: Seq<RelationView>) -> Seq<
    Seq<char>,
>
    decreases rs.len(),
{
    if rs.len() == 0 {
        Seq::empty()
    } else {
        dangling_messages(ents, rs.drop_last()) + missing_ends(ents, rs.last())
    }
}

/// A list without duplicates keeps none when an absent element is appended.
pub proof fn lemma_push_no_duplicates<A>(s: Seq<A>, x: A)
    requires
        s.no_duplicates(),
        !s.contains(x),
    ensures
        s.push(x).no_duplicates(),
{
    assert forall|i: int, j: int| 0 <= i < s.push(x).len() && 0 <= j < s.push(x).len() && i != j implies s.push(x)[i] != s.push(x)[j] by {
        if i == s.len() as int {
            assert(s[j] == s.push(x)[j]);
        } else if j == s.len() as int {
            assert(s[i] == s.push(x)[i]);
        }
    }
}

/// In a list without duplicates, the element at `i` is not in the part before `i`.
pub proof fn lemma_no_duplicates_take<A>(s: Seq<A>, i: int)
    requires
        s.no_duplicates(),
        0 <= i < s.len(),
    ensures
        !s.take(i).contains(s[i]),
{
    if s.take(i).contains(s[i]) {
        let k = choose|k: int| 0 <= k < s.take(i).len() && s.take(i)[k] == s[i];
        assert(s[k] == s[i]);
    }
}

/// Whether the plain graph `c` holds exactly the content of `g`: each stored entity
/// once, and each stored relation once, in any order.
pub open spec fn graph_holds(g: GraphView, c: Graph) -> bool {
    &&& lists_entities(g.entities, entities_view(c.entities@))
    &&& lists_relations(g.relations, relations_view(c.relations@))
}

/// A list whose every element is absent from the part before it has no duplicates.
proof fn lemma_no_duplicates_by_prefix<A>(s: Seq<A>)
    requires
        forall|i: int| 0 <= i < s.len() ==> !#[trigger] s.take(i).contains(s[i]),
    ensures
        s.no_duplicates(),
{
    assert forall|a: int, b: int| 0 <= a < s.len() && 0 <= b < s.len() && a != b implies s[a]
        != s[b] by {
        if s[a] == s[b] {
            if a < b {
                assert(s.take(b)[a] == s[a]);
                assert(s.take(b).contains(s[b]));
            } else {
                assert(s.take(a)[b] == s[b]);
                assert(s.take(a).contains(s[a]));
            }
        }
    }
}

/// Whether `v` holds an entity equal to `e`.
fn has_entity(v: &Vec<Entity>, e: &Entity) -> (r: bool)
    ensures
        r == entities_view(v@).contains(e@),
{
    for i in 0..v.len()
        invariant
            forall|j: int| 0 <= j < i ==> v@[j]@ != e@,
    {
        if v[i].same_as(e) {
            proof {
                assert(entities_view(v@)[i as int] == e@);
            }
            return true;
        }
    }
    proof {
        if entities_view(v@).contains(e@) {
            let j = choose|j: int| 0 <= j < v@.len() && entities_view(v@)[j] == e@;
            assert(v@[j]@ == e@);
        }
    }
    false
}

/// Whether an entity before position `i` of `v` has the name of the one at `i`.
fn name_repeated(v: &Vec<Entity>, i: usize) -> (r: bool)
    requires
        i < v.len(),
    ensures
        r == names_of(entities_view(v@)).take(i as int).contains(v@[i as int]@.name),
{
    let ghost ns = names_of(entities_view(v@));
    for j in 0..i
        invariant
            i < v.len(),
            ns == names_of(entities_view(v@)),
            forall|k: int| 0 <= k < j ==> v@[k]@.name != v@[i as int]@.name,
    {
        if v[j].name == v[i].name {
            proof {
                assert(ns.take(i as int)[j as int] == v@[i as int]@.name);
            }
            return true;
        }
    }
    proof {
        if ns.take(i as int).contains(v@[i as int]@.name) {
            let k = choose|k: int| 0 <= k < i && ns.take(i as int)[k] == v@[i as int]@.name;
            assert(ns[k] == v@[k]@.name);
        }
    }
    false
}

/// Whether `v` holds a relation equal to `x`.
fn has_relation(v: &Vec<Relation>, x: &Relation) -> (r: bool)
    ensures
        r == relations_view(v@).contains(x@),
{
    for i in 0..v.len()
        invariant
            forall|j: int| 0 <= j < i ==> v@[j]@ != x@,
    {
        if v[i].same_as(x) {
            proof {
                assert(relations_view(v@)[i as int] == x@);
            }
            return true;
        }
    }
    proof {
        if relations_view(v@).contains(x@) {
            let j = choose|j: int| 0 <= j < v@.len() && relations_view(v@)[j] == x@;
            assert(v@[j]@ == x@);
        }
    }
    false
}

/// Whether a relation before position `i` of `v` equals the one at `i`.
fn relation_repeated(v: &Vec<Relation>, i: usize) -> (r: bool)
    requires
        i < v.len(),
    ensures
        r == relations_view(v@).take(i as int).contains(v@[i as int]@),
{
    let ghost rv = relations_view(v@);
    for j in 0..i
        invariant
            i < v.len(),
            rv == relations_view(v@),
            forall|k: int| 0 <= k < j ==> v@[k]@ != v@[i as int]@,
    {
        if v[j].same_as(&v[i]) {
            proof {
                assert(rv.take(i as int)[j as int] == v@[i as int]@);
            }
            return true;
        }
    }
    proof {
        if rv.take(i as int).contains(v@[i as int]@) {
            let k = choose|k: int| 0 <= k < i && rv.take(i as int)[k] == v@[i as int]@;
            assert(rv[k] == v@[k]@);
        }
    }
    false
}

/// Given a listing `es` of the entities of `m`, whether `jv` lists them too.
fn lists_same_entities(Ghost(m): Ghost<Map<Seq<char>, EntityView>>, es: &Vec<Entity>, jv: &Vec<Entity>) -> (r: bool)
    requires
        lists_entities(m, entities_view(es@)),
    ensures
        r == lists_entities(m, entities_view(jv@)),
{
    let ghost ev = entities_view(es@);
    let ghost jw = entities_view(jv@);
    for i in 0..jv.len()
        invariant
            ev == entities_view(es@),
            jw == entities_view(jv@),
            lists_entities(m, ev),
            forall|j: int|
                0 <= j < i ==> !names_of(jw).take(j).contains(jw[j].name) && ev.contains(
                    #[trigger] jw[j],
                ),
    {
        let repeated = name_repeated(jv, i);
        let found = has_entity(es, &jv[i]);
        if repeated || !found {
            proof {
                let n = jw[i as int].name;
                assert(names_of(jw)[i as int] == n);
                if lists_entities(m, jw) {
                    if repeated {
                        let j = choose|j: int| 0 <= j < i && names_of(jw).take(i as int)[j] == n;
                        assert(names_of(jw)[j] == names_of(jw)[i as int]);
                    } else {
                        assert(names_of(jw).to_set().contains(n));
                        assert(names_of(ev).to_set().contains(n));
                        let k = choose|k: int| 0 <= k < names_of(ev).len() && names_of(ev)[k] == n;
                        assert(m[ev[k].name] == ev[k]);
                        assert(ev[k] == jw[i as int]);
                    }
                }
            }
            return false;
        }
    }
    for k in 0..es.len()
        invariant
            ev == entities_view(es@),
            jw == entities_view(jv@),
            lists_entities(m, ev),
            forall|j: int|
                0 <= j < jw.len() ==> !names_of(jw).take(j).contains(jw[j].name) && ev.contains(
                    #[trigger] jw[j],
                ),
            forall|x: int| 0 <= x < k ==> jw.contains(#[trigger] ev[x]),
    {
        if !has_entity(jv, &es[k]) {
            proof {
                let n = ev[k as int].name;
                assert(names_of(ev)[k as int] == n);
                if lists_entities(m, jw) {
                    assert(names_of(ev).to_set().contains(n));
                    assert(names_of(jw).to_set().contains(n));
                    let i = choose|i: int| 0 <= i < names_of(jw).len() && names_of(jw)[i] == n;
                    assert(m[jw[i].name] == jw[i]);
                    assert(jw[i] == ev[k as int]);
                }
            }
            return false;
        }
    }
    proof {
        let ns = names_of(jw);
        assert forall|i: int| 0 <= i < ns.len() implies !#[trigger] ns.take(i).contains(ns[i]) by {
            assert(ns[i] == jw[i].name);
        }
        lemma_no_duplicates_by_prefix(ns);
        assert forall|i: int| 0 <= i < jw.len() implies m[#[trigger] jw[i].name] == jw[i] by {
            assert(ev.contains(jw[i]));
            let k = choose|k: int| 0 <= k < ev.len() && ev[k] == jw[i];
        }
        assert forall|n: Seq<char>| ns.to_set().contains(n) <==> m.dom().contains(n) by {
            if ns.to_set().contains(n) {
                let i = choose|i: int| 0 <= i < ns.len() && ns[i] == n;
                assert(ev.contains(jw[i]));
                let k = choose|k: int| 0 <= k < ev.len() && ev[k] == jw[i];
                assert(names_of(ev)[k] == n);
                assert(names_of(ev).to_set().contains(n));
            }
            if m.dom().contains(n) {
                assert(names_of(ev).to_set().contains(n));
                let k = choose|k: int| 0 <= k < names_of(ev).len() && names_of(ev)[k] == n;
                assert(jw.contains(ev[k]));
                let i = choose|i: int| 0 <= i < jw.len() && jw[i] == ev[k];
                assert(ns[i] == n);
            }
        }
        assert(ns.to_set() =~= m.dom());
    }
    true
}

/// Given a listing `rs` of the relations `s`, whether `jr` lists them too.
fn lists_same_relations(Ghost(s): Ghost<Set<RelationView>>, rs: &Vec<Relation>, jr: &Vec<Relation>) -> (r: bool)
    requires
        lists_relations(s, relations_view(rs@)),
    ensures
        r == lists_relations(s, relations_view(jr@)),
{
    let ghost rv = relations_view(rs@);
    let ghost jw = relations_view(jr@);
    for i in 0..jr.len()
        invariant
            rv == relations_view(rs@),
            jw == relations_view(jr@),
            lists_relations(s, rv),
            forall|j: int| 0 <= j < i ==> !jw.take(j).contains(jw[j]) && rv.contains(#[trigger] jw[j]),
    {
        let repeated = relation_repeated(jr, i);
        let found = has_relation(rs, &jr[i]);
        if repeated || !found {
            proof {
                let x = jw[i as int];
                if lists_relations(s, jw) {
                    if repeated {
                        let j = choose|j: int| 0 <= j < i && jw.take(i as int)[j] == x;
                        assert(jw[j] == jw[i as int]);
                    } else {
                        assert(jw.to_set().contains(x));
                        assert(rv.to_set().contains(x));
                    }
                }
            }
            return false;
        }
    }
    for k in 0..rs.len()
        invariant
            rv == relations_view(rs@),
            jw == relations_view(jr@),
            lists_relations(s, rv),
            forall|j: int| 0 <= j < jw.len() ==> !jw.take(j).contains(jw[j]) && rv.contains(#[trigger] jw[j]),
            forall|x: int| 0 <= x < k ==> jw.contains(#[trigger] rv[x]),
    {
        if !has_relation(jr, &rs[k]) {
            proof {
                if lists_relations(s, jw) {
                    assert(rv.to_set().contains(rv[k as int]));
                    assert(jw.to_set().contains(rv[k as int]));
                }
            }
            return false;
        }
    }
    proof {
        assert forall|i: int| 0 <= i < jw.len() implies !#[trigger] jw.take(i).contains(jw[i]) by {}
        lemma_no_duplicates_by_prefix(jw);
        assert forall|x: RelationView| jw.to_set().contains(x) <==> s.contains(x) by {
            if jw.to_set().contains(x) {
                let i = choose|i: int| 0 <= i < jw.len() && jw[i] == x;
                assert(rv.contains(jw[i]));
                assert(rv.to_set().contains(x));
            }
            if s.contains(x) {
                assert(rv.to_set().contains(x));
                let k = choose|k: int| 0 <= k < rv.len() && rv[k] == x;
                assert(jw.contains(rv[k]));
            }
        }
        assert(jw.to_set() =~= s);
    }
    true
}

/// Whether a search for the lowercased query `q` finds `e`.
fn entity_hit(e: &Entity, q: &str) -> (r: bool)
    ensures
        r == entity_matches(e@, q@),
        occurs_in(q@, lowercase(e@.name)) ==> r,
        occurs_in(q@, lowercase(e@.entity_type)) ==> r,
        forall|i: int|
            0 <= i < e@.observations.len() && occurs_in(q@, lowercase(#[trigger] e@.observations[i]))
                ==> r,
{
    if contains_str(to_lowercase(e.name.as_str()).as_str(), q) {
        return true;
    }
    if contains_str(to_lowercase(e.entity_type.as_str()).as_str(), q) {
        return true;
    }
    for i in 0..e.observations.len()
        invariant
            !occurs_in(q@, lowercase(e@.name)),
            !occurs_in(q@, lowercase(e@.entity_type)),
            forall|k: int| 0 <= k < i ==> !occurs_in(q@, lowercase(#[trigger] e@.observations[k])),
    {
        if contains_str(to_lowercase(e.observations[i].as_str()).as_str(), q) {
            proof {
                assert(e@.observations[i as int] == e.observations@[i as int]@);
            }
            return true;
        }
        proof {
            assert(e@.observations[i as int] == e.observations@[i as int]@);
        }
    }
    false
}

/// An in-memory knowledge graph: entities keyed by name, a set of relations, and a
/// flag that records whether the graph changed since it was last saved.
pub struct MemoryGraph {
    entities: DashMap<String, Entity>,
    relations: DashMap<RelationKey, ()>,
    dirty: bool,
}

impl View for MemoryGraph {
    type V = GraphView;

    closed spec fn view(&self) -> GraphView {
        GraphView {
            entities: entity_table(self.entities),
            relations: relation_table(self.relations),
            dirty: self.dirty,
        }
    }
}

impl MemoryGraph {
    /// The graph is well formed (see `graph_wf`).
    pub open spec fn wf(&self) -> bool {
        graph_wf(self@)
    }

    /// The view of an empty graph with nothing to save.
    pub open spec fn new_view() -> GraphView {
        GraphView { entities: Map::empty(), relations: Set::empty(), dirty: false }
    }

    /// An empty graph with nothing to save.
    pub fn new() -> (g: MemoryGraph)
        ensures
            g.wf(),
            g@ == MemoryGraph::new_view(),
    {
        let g = MemoryGraph {
            entities: entity_table_new(),
            relations: relation_table_new(),
            dirty: false,
        };
        proof {
            assert(g@.entities =~= Map::empty());
            assert(g@.relations =~= Set::empty());
        }
        g
    }

    /// Whether the graph changed since it was last marked saved.
    pub fn is_dirty(&self) -> (r: bool)
        ensures
            r == self@.dirty,
    {
        self.dirty
    }

    /// Marks the graph as saved.
    pub fn clear_dirty(&mut self)
        ensures
            final(self)@ == (GraphView { dirty: false, ..old(self)@ }),
    {
        self.dirty = false;
    }

    /// Records that the graph changed.
    fn mark_dirty(&mut self)
        ensures
            final(self)@ == (GraphView { dirty: true, ..old(self)@ }),
    {
        self.dirty = true;
    }

    /// Adds entities, first to last. An entity whose name is new is stored as given;
    /// one whose name is known replaces the stored type and gains the observations that
    /// the stored one lacks. The graph is marked changed when a stored entity changed.
    pub fn create_entities(&mut self, entities: Vec<Entity>)
        requires
            old(self).wf(),
        ensures
            final(self).wf(),
            final(self)@ == after_create_entities(old(self)@, entities_view(entities@)),
            change_recorded(old(self)@, final(self)@),
            old(self)@.dirty ==> final(self)@.dirty,
    {
        let ghost m0 = self@.entities;
        let ghost ev = entities_view(entities@);
        for i in 0..entities.len()
            invariant
                self.wf(),
                ev == entities_view(entities@),
                self@.entities == absorb_entities(m0, ev.take(i as int)).0,
                self@.relations == old(self)@.relations,
                self@.dirty == (old(self)@.dirty || absorb_entities(m0, ev.take(i as int)).1),
        {
            proof {
                assert(ev.take(i + 1).drop_last() =~= ev.take(i as int));
                assert(ev.take(i + 1).last() == entities@[i as int]@);
            }
            let e = &entities[i];
            let found = entity_table_get(&self.entities, e.name.as_str());
            match found {
                Some(mut existing) => {
                    let mut changed = false;
                    if !(existing.entity_type == e.entity_type) {
                        existing.entity_type = e.entity_type.clone();
                        changed = true;
                    }
                    let grew = merge_observations_into(&mut existing.observations, &e.observations);
                    if changed || grew {
                        self.mark_dirty();
                    }
                    entity_table_insert(&mut self.entities, e.name.clone(), existing);
                },
                None => {
                    self.mark_dirty();
                    entity_table_insert(&mut self.entities, e.name.clone(), e.duplicate());
                },
            }
        }
        proof {
            assert(ev.take(entities@.len() as int) =~= ev);
            if !self@.dirty {
                lemma_absorb_unchanged(m0, ev);
            }
        }
    }

    /// Adds the relations whose two ends are stored entities; the others are dropped.
    /// The graph is marked changed when a relation was not stored yet.
    pub fn create_relations(&mut self, relations: Vec<Relation>)
        requires
            old(self).wf(),
        ensures
            final(self).wf(),
            final(self)@ == after_create_relations(old(self)@, relations_view(relations@)),
            change_recorded(old(self)@, final(self)@),
            old(self)@.dirty ==> final(self)@.dirty,
    {
        let ghost rv = relations_view(relations@);
        for i in 0..relations.len()
            invariant
                self.wf(),
                rv == relations_view(relations@),
                self@.entities == old(self)@.entities,
                self@.relations == old(self)@.relations.union(
                    admitted_relations(old(self)@.entities, rv.take(i as int)),
                ),
                self@.dirty == (old(self)@.dirty || !admitted_relations(
                    old(self)@.entities,
                    rv.take(i as int),
                ).subset_of(old(self)@.relations)),
        {
            let ghost before = admitted_relations(old(self)@.entities, rv.take(i as int));
            let ghost r = relations@[i as int]@;
            proof {
                assert(rv.take(i + 1) =~= rv.take(i as int).push(r));
                lemma_push_to_set(rv.take(i as int), r);
            }
            let rel = &relations[i];
            if entity_table_contains(&self.entities, rel.from.as_str())
                && entity_table_contains(&self.entities, rel.to.as_str()) {
                let key = (rel.from.clone(), rel.to.clone(), rel.relation_type.clone());
                let fresh = relation_table_insert(&mut self.relations, key);
                if fresh {
                    self.mark_dirty();
                }
                proof {
                    assert(admitted_relations(old(self)@.entities, rv.take(i + 1)) =~= before.insert(r));
                }
            } else {
                proof {
                    assert(admitted_relations(old(self)@.entities, rv.take(i + 1)) =~= before);
                }
            }
        }
        proof {
            assert(rv.take(relations@.len() as int) =~= rv);
            if !self@.dirty {
                assert(self@.relations =~= old(self)@.relations);
            }
        }
    }

    /// Removes the given relations; the graph is marked changed when one was stored.
    pub fn delete_relations(&mut self, relations: Vec<Relation>)
        requires
            old(self).wf(),
        ensures
            final(self).wf(),
            final(self)@ == after_delete_relations(old(self)@, relations_view(relations@)),
            change_recorded(old(self)@, final(self)@),
            old(self)@.dirty ==> final(self)@.dirty,
    {
        let ghost rv = relations_view(relations@);
        for i in 0..relations.len()
            invariant
                self.wf(),
                rv == relations_view(relations@),
                self@.entities == old(self)@.entities,
                self@.relations == old(self)@.relations.difference(rv.take(i as int).to_set()),
                self@.dirty == (old(self)@.dirty || !old(self)@.relations.intersect(
                    rv.take(i as int).to_set(),
                ).is_empty()),
        {
            let ghost r = relations@[i as int]@;
            proof {
                assert(rv.take(i + 1) =~= rv.take(i as int).push(r));
                lemma_push_to_set(rv.take(i as int), r);
                assert(old(self)@.relations.difference(rv.take(i + 1).to_set()) =~= self@.relations.remove(r));
            }
            let rel = &relations[i];
            let key = (rel.from.clone(), rel.to.clone(), rel.relation_type.clone());
            let was = relation_table_remove(&mut self.relations, &key);
            if was {
                self.mark_dirty();
                proof {
                    assert(old(self)@.relations.intersect(rv.take(i + 1).to_set()).contains(r));
                }
            } else {
                proof {
                    assert(old(self)@.relations.intersect(rv.take(i + 1).to_set()) =~= old(self)@.relations.intersect(rv.take(i as int).to_set()));
                }
            }
        }
        proof {
            assert(rv.take(relations@.len() as int) =~= rv);
            if !self@.dirty {
                assert forall|r: RelationView| old(self)@.relations.contains(r) implies !rv.to_set().contains(r) by {
                    if rv.to_set().contains(r) {
                        assert(old(self)@.relations.intersect(rv.to_set()).contains(r));
                    }
                }
                assert(self@.relations =~= old(self)@.relations);
            }
        }
    }

    /// Appends to the named entity each given observation that it lacks, in order.
    /// Tells whether the entity exists; the graph is marked changed when one was added.
    pub fn add_observations(&mut self, entity_name: &str, observations: Vec<String>) -> (found: bool)
        requires
            old(self).wf(),
        ensures
            final(self).wf(),
            found == old(self)@.entities.contains_key(entity_name@),
            final(self)@ == after_add_observations(
                old(self)@,
                entity_name@,
                strings_view(observations@),
            ),
            change_recorded(old(self)@, final(self)@),
            old(self)@.dirty ==> final(self)@.dirty,
    {
        match entity_table_get(&self.entities, entity_name) {
            Some(mut entity) => {
                let grew = merge_observations_into(&mut entity.observations, &observations);
                if grew {
                    self.mark_dirty();
                }
                let key = entity.name.clone();
                let ghost before = self@;
                proof {
                    assert(before.entities.contains_key(entity_name@));
                    assert(entity.name@ == entity_name@);
                }
                entity_table_insert(&mut self.entities, key, entity);
                proof {
                    if !self@.dirty {
                        let o = before.entities[entity_name@];
                        lemma_merge_same_length(o.observations, strings_view(observations@));
                        assert(self@.entities =~= before.entities);
                    }
                    assert(self@.entities.dom() =~= before.entities.dom());
                    assert forall|n: Seq<char>| #[trigger] self@.entities.contains_key(n) implies self@.entities[n].name == n by {
                        assert(before.entities.contains_key(n));
                    }
                    assert forall|r: RelationView| #[trigger] self@.relations.contains(r) implies self@.entities.contains_key(r.0) && self@.entities.contains_key(r.1) by {
                        assert(before.relations.contains(r));
                    }
                }
                true
            },
            None => false,
        }
    }

    /// Removes from the named entity every observation that is among the given ones.
    /// Tells whether something was removed; the graph is then marked changed.
    pub fn delete_observations(&mut self, entity_name: &str, observations: Vec<String>) -> (removed: bool)
        requires
            old(self).wf(),
        ensures
            final(self).wf(),
            removed == removes_observations(old(self)@, entity_name@, strings_view(observations@)),
            final(self)@ == after_delete_observations(
                old(self)@,
                entity_name@,
                strings_view(observations@),
            ),
            change_recorded(old(self)@, final(self)@),
            old(self)@.dirty ==> final(self)@.dirty,
    {
        match entity_table_get(&self.entities, entity_name) {
            Some(mut entity) => {
                let initial_len = entity.observations.len();
                let kept = retain_observations(&entity.observations, &observations);
                entity.observations = kept;
                let removed = entity.observations.len() != initial_len;
                if removed {
                    self.mark_dirty();
                }
                let key = entity.name.clone();
                let ghost before = self@;
                proof {
                    assert(before.entities.contains_key(entity_name@));
                    assert(entity.name@ == entity_name@);
                }
                entity_table_insert(&mut self.entities, key, entity);
                proof {
                    if !self@.dirty {
                        let o = before.entities[entity_name@];
                        lemma_without_exact(o.observations, strings_view(observations@));
                        assert(self@.entities =~= before.entities);
                    }
                    assert(self@.entities.dom() =~= before.entities.dom());
                    assert forall|n: Seq<char>| #[trigger] self@.entities.contains_key(n) implies self@.entities[n].name == n by {
                        assert(before.entities.contains_key(n));
                    }
                    assert forall|r: RelationView| #[trigger] self@.relations.contains(r) implies self@.entities.contains_key(r.0) && self@.entities.contains_key(r.1) by {
                        assert(before.relations.contains(r));
                    }
                }
                removed
            },
            None => false,
        }
    }

    /// Removes every stored relation that has `name` at one of its ends.
    fn drop_relations_touching(&mut self, name: &String)
        ensures
            final(self)@.entities == old(self)@.entities,
            final(self)@.dirty == old(self)@.dirty,
            final(self)@.relations == old(self)@.relations.filter(
                |r: RelationView| r.0 != name@ && r.1 != name@,
            ),
    {
        let ghost r0 = self@.relations;
        let keys = relation_table_keys(&self.relations);
        let ghost kv = relation_keys_view(keys@);
        for j in 0..keys.len()
            invariant
                kv == relation_keys_view(keys@),
                kv.to_set() == r0,
                self@.entities == old(self)@.entities,
                self@.dirty == old(self)@.dirty,
                self@.relations == r0.filter(
                    |r: RelationView|
                        !(kv.take(j as int).contains(r) && (r.0 == name@ || r.1 == name@)),
                ),
        {
            let ghost k = keys@[j as int]@;
            proof {
                assert(kv.take(j + 1) =~= kv.take(j as int).push(k));
                lemma_push_to_set(kv.take(j as int), k);
                assert(kv.take(j as int).push(k).to_set().contains(k));
            }
            let key = &keys[j];
            if key.0 == *name || key.1 == *name {
                relation_table_remove(&mut self.relations, key);
                proof {
                    assert(self@.relations =~= r0.filter(
                        |r: RelationView|
                            !(kv.take(j + 1).contains(r) && (r.0 == name@ || r.1 == name@)),
                    ));
                }
            } else {
                proof {
                    assert(self@.relations =~= r0.filter(
                        |r: RelationView|
                            !(kv.take(j + 1).contains(r) && (r.0 == name@ || r.1 == name@)),
                    ));
                }
            }
        }
        proof {
            assert(kv.take(keys@.len() as int) =~= kv);
            assert(self@.relations =~= r0.filter(|r: RelationView| r.0 != name@ && r.1 != name@));
        }
    }

    /// Removes the named entities and, with each entity removed, every relation that
    /// touches it. The graph is marked changed when an entity was removed.
    pub fn delete_entities(&mut self, entity_names: Vec<String>)
        requires
            old(self).wf(),
        ensures
            final(self).wf(),
            final(self)@ == after_delete_entities(old(self)@, strings_view(entity_names@)),
            change_recorded(old(self)@, final(self)@),
            old(self)@.dirty ==> final(self)@.dirty,
    {
        let ghost nv = strings_view(entity_names@);
        let ghost g0 = self@;
        proof {
            assert(removed_names(g0.entities, nv.take(0)) =~= Set::empty());
            assert(g0.entities.remove_keys(Set::empty()) =~= g0.entities);
            assert(relations_avoiding(g0.relations, Set::empty()) =~= g0.relations);
        }
        for i in 0..entity_names.len()
            invariant
                self.wf(),
                nv == strings_view(entity_names@),
                g0 == old(self)@,
                graph_wf(g0),
                self@.entities == g0.entities.remove_keys(removed_names(g0.entities, nv.take(i as int))),
                self@.relations == relations_avoiding(
                    g0.relations,
                    removed_names(g0.entities, nv.take(i as int)),
                ),
                self@.dirty == (g0.dirty || !removed_names(g0.entities, nv.take(i as int)).is_empty()),
        {
            let ghost n = entity_names@[i as int]@;
            let ghost d = removed_names(g0.entities, nv.take(i as int));
            proof {
                assert(nv.take(i + 1) =~= nv.take(i as int).push(n));
                lemma_push_to_set(nv.take(i as int), n);
            }
            let name = &entity_names[i];
            let was = entity_table_remove(&mut self.entities, name.as_str());
            if was {
                self.mark_dirty();
                self.drop_relations_touching(name);
                proof {
                    let d2 = removed_names(g0.entities, nv.take(i + 1));
                    assert(d2 =~= d.insert(n));
                    assert(self@.entities =~= g0.entities.remove_keys(d2));
                    assert(self@.relations =~= relations_avoiding(g0.relations, d2));
                    assert(d2.contains(n));
                    assert forall|r: RelationView| #[trigger] self@.relations.contains(r) implies self@.entities.contains_key(r.0) && self@.entities.contains_key(r.1) by {
                        assert(g0.relations.contains(r));
                    }
                }
            } else {
                proof {
                    let d2 = removed_names(g0.entities, nv.take(i + 1));
                    assert(d2 =~= d);
                }
            }
        }
        proof {
            assert(nv.take(entity_names@.len() as int) =~= nv);
            if !self@.dirty {
                let d = removed_names(g0.entities, nv);
                assert(d =~= Set::empty());
                assert(self@.entities =~= g0.entities);
                assert(self@.relations =~= g0.relations);
            }
        }
    }

    /// Every stored entity, each once, in no stated order.
    fn all_entities(&self) -> (r: Vec<Entity>)
        requires
            self.wf(),
        ensures
            lists_entities(self@.entities, entities_view(r@)),
    {
        let entries = entity_table_entries(&self.entities);
        let ghost m = self@.entities;
        let mut result: Vec<Entity> = Vec::new();
        for i in 0..entries.len()
            invariant
                self.wf(),
                m == self@.entities,
                entry_names(entries@).no_duplicates(),
                entry_names(entries@).to_set() == m.dom(),
                forall|k: int| 0 <= k < entries@.len() ==> #[trigger] entries@[k].1@ == m[entries@[k].0@],
                result@.len() == i,
                forall|k: int| 0 <= k < i ==> #[trigger] result@[k]@ == entries@[k].1@,
        {
            let e = entries[i].1.duplicate();
            result.push(e);
        }
        proof {
            let ev = entities_view(result@);
            assert forall|k: int| 0 <= k < entries@.len() implies #[trigger] names_of(ev)[k] == entry_names(entries@)[k] by {
                assert(entry_names(entries@).to_set().contains(entries@[k].0@)) by {
                    assert(entry_names(entries@)[k] == entries@[k].0@);
                }
                assert(m.contains_key(entries@[k].0@));
            }
            assert(names_of(ev) =~= entry_names(entries@));
            assert forall|i: int| 0 <= i < ev.len() implies m[#[trigger] ev[i].name] == ev[i] by {
                assert(names_of(ev)[i] == ev[i].name);
            }
        }
        result
    }

    /// Every stored relation, each once, in no stated order.
    fn all_relations(&self) -> (r: Vec<Relation>)
        ensures
            lists_relations(self@.relations, relations_view(r@)),
    {
        let keys = relation_table_keys(&self.relations);
        let mut result: Vec<Relation> = Vec::new();
        for i in 0..keys.len()
            invariant
                relations_view(result@) == relation_keys_view(keys@).take(i as int),
        {
            let k = &keys[i];
            let rel = Relation { from: k.0.clone(), to: k.1.clone(), relation_type: k.2.clone() };
            proof {
                assert(relation_keys_view(keys@).take(i + 1) =~= relation_keys_view(keys@).take(i as int).push(keys@[i as int]@));
                assert(relations_view(result@.push(rel)) =~= relations_view(result@).push(rel@));
            }
            result.push(rel);
        }
        proof {
            assert(relation_keys_view(keys@).take(keys@.len() as int) =~= relation_keys_view(keys@));
        }
        result
    }

    /// The whole graph: every entity and every relation, each once, in no stated order.
    pub fn read_graph(&self) -> (r: (Vec<Entity>, Vec<Relation>))
        requires
            self.wf(),
        ensures
            lists_entities(self@.entities, entities_view(r.0@)),
            lists_relations(self@.relations, relations_view(r.1@)),
    {
        (self.all_entities(), self.all_relations())
    }

    /// Whether the plain graph `c` holds exactly what this graph holds (see
    /// `graph_holds`).
    pub fn holds(&self, c: &Graph) -> (r: bool)
        requires
            self.wf(),
        ensures
            r == graph_holds(self@, *c),
    {
        let es = self.all_entities();
        if !lists_same_entities(Ghost(self@.entities), &es, &c.entities) {
            return false;
        }
        let rs = self.all_relations();
        lists_same_relations(Ghost(self@.relations), &rs, &c.relations)
    }

    /// The graph as a plain value, ready to be saved.
    pub fn to_serializable(&self) -> (r: Graph)
        requires
            self.wf(),
        ensures
            lists_entities(self@.entities, entities_view(r.entities@)),
            lists_relations(self@.relations, relations_view(r.relations@)),
    {
        let (entities, relations) = self.read_graph();
        Graph { entities, relations }
    }

    /// A graph built from a saved one: its entities folded in first to last, then its
    /// relations whose ends exist; nothing is left to save.
    pub fn from_serializable(graph: Graph) -> (g: MemoryGraph)
        ensures
            g.wf(),
            g@ == (GraphView {
                dirty: false,
                ..after_create_relations(
                    after_create_entities(
                        MemoryGraph::new_view(),
                        entities_view(graph.entities@),
                    ),
                    relations_view(graph.relations@),
                )
            }),
    {
        let mut g = MemoryGraph::new();
        proof {
            assert(g@.entities =~= Map::empty());
        }
        g.create_entities(graph.entities);
        let ghost before = g@;
        g.create_relations(graph.relations);
        proof {
            assert(before.relations =~= Set::empty());
            assert(g@.relations =~= admitted_relations(g@.entities, relations_view(graph.relations@)));
        }
        g.clear_dirty();
        g
    }

    /// The entities that a search finds, with the relations that touch them. The query
    /// and every searched string are lowercased; an entity is found when the query occurs
    /// in its name, its type or one of its observations. An empty query finds the whole
    /// graph, and an ASCII query is lowercased letter by letter. Orders are not stated.
    pub fn search_nodes(&self, query: &str) -> (r: (Vec<Entity>, Vec<Relation>))
        requires
            self.wf(),
        ensures
            query@.len() == 0 ==> lists_entities(self@.entities, entities_view(r.0@))
                && lists_relations(self@.relations, relations_view(r.1@)),
            forall|n: Seq<char>|
                #[trigger] self@.entities.contains_key(n) && (occurs_in(
                    lowercase(query@),
                    lowercase(n),
                ) || occurs_in(lowercase(query@), lowercase(self@.entities[n].entity_type)))
                    ==> entities_view(r.0@).contains(self@.entities[n]),
            forall|n: Seq<char>, i: int|
                self@.entities.contains_key(n) && 0 <= i < self@.entities[n].observations.len()
                    && occurs_in(
                    lowercase(query@),
                    lowercase(#[trigger] self@.entities[n].observations[i]),
                ) ==> entities_view(r.0@).contains(self@.entities[n]),
            forall|e: EntityView| #[trigger]
                entities_view(r.0@).contains(e) ==> self@.entities.contains_key(e.name)
                    && self@.entities[e.name] == e,
            is_ascii_text(query@) ==> lists_entities(
                matching_entities(self@.entities, ascii_lowercase(query@)),
                entities_view(r.0@),
            ) && lists_relations(
                relations_touching(
                    self@.relations,
                    matching_entities(self@.entities, ascii_lowercase(query@)).dom(),
                ),
                relations_view(r.1@),
            ),
            lists_entities(
                matching_entities(self@.entities, lowercase(query@)),
                entities_view(r.0@),
            ),
            lists_relations(
                relations_touching(
                    self@.relations,
                    matching_entities(self@.entities, lowercase(query@)).dom(),
                ),
                relations_view(r.1@),
            ),
    {
        let q = to_lowercase(query);
        let ghost m = self@.entities;
        let ghost hit = matching_entities(m, q@);
        let all = self.all_entities();
        let ghost av = entities_view(all@);
        let mut found: Vec<Entity> = Vec::new();
        for i in 0..all.len()
            invariant
                self.wf(),
                m == self@.entities,
                av == entities_view(all@),
                lists_entities(m, av),
                names_of(entities_view(found@)).no_duplicates(),
                names_of(entities_view(found@)).to_set() == names_of(av).take(i as int).to_set().filter(
                    |n: Seq<char>| entity_matches(m[n], q@),
                ),
                forall|k: int| 0 <= k < found@.len() ==> m[#[trigger] found@[k]@.name] == found@[k]@,
        {
            let ghost n = av[i as int].name;
            proof {
                assert(names_of(av)[i as int] == n);
                assert(names_of(av).take(i + 1) =~= names_of(av).take(i as int).push(n));
                lemma_push_to_set(names_of(av).take(i as int), n);
                lemma_no_duplicates_take(names_of(av), i as int);
            }
            if entity_hit(&all[i], q.as_str()) {
                let e = all[i].duplicate();
                proof {
                    assert(m[n] == av[i as int]);
                    let fv = entities_view(found@);
                    assert(!names_of(fv).contains(n)) by {
                        if names_of(fv).contains(n) {
                            let k = choose|k: int| 0 <= k < names_of(fv).len() && names_of(fv)[k] == n;
                            assert(names_of(fv).to_set().contains(n));
                        }
                    }
                    assert(entities_view(found@.push(e)) =~= fv.push(e@));
                    assert(names_of(fv.push(e@)) =~= names_of(fv).push(n));
                    lemma_push_no_duplicates(names_of(fv), n);
                    lemma_push_to_set(names_of(fv), n);
                    assert(names_of(fv).push(n).to_set() =~= names_of(av).take(i + 1).to_set().filter(
                        |x: Seq<char>| entity_matches(m[x], q@),
                    ));
                }
                found.push(e);
            } else {
                proof {
                    assert(m[n] == av[i as int]);
                    assert(names_of(entities_view(found@)).to_set() =~= names_of(av).take(i + 1).to_set().filter(
                        |x: Seq<char>| entity_matches(m[x], q@),
                    ));
                }
            }
        }
        proof {
            assert(names_of(av).take(all@.len() as int) =~= names_of(av));
            let fv = entities_view(found@);
            assert(names_of(fv).to_set() =~= hit.dom());
            assert forall|k: int| 0 <= k < fv.len() implies hit[#[trigger] fv[k].name] == fv[k] by {
                assert(names_of(fv)[k] == fv[k].name);
                assert(found@[k]@ == fv[k]);
            }
        }
        let keys = relation_table_keys(&self.relations);
        let ghost kv = relation_keys_view(keys@);
        let ghost rels = self@.relations;
        let mut touching: Vec<Relation> = Vec::new();
        for j in 0..keys.len()
            invariant
                m == self@.entities,
                hit == matching_entities(m, q@),
                kv == relation_keys_view(keys@),
                kv.no_duplicates(),
                relations_view(touching@).no_duplicates(),
                relations_view(touching@).to_set() == kv.take(j as int).to_set().filter(
                    |r: RelationView| hit.dom().contains(r.0) || hit.dom().contains(r.1),
                ),
        {
            let ghost k = kv[j as int];
            proof {
                assert(kv.take(j + 1) =~= kv.take(j as int).push(k));
                lemma_push_to_set(kv.take(j as int), k);
                lemma_no_duplicates_take(kv, j as int);
                assert(keys@[j as int]@ == k);
            }
            let key = &keys[j];
            let from_hit = match entity_table_get(&self.entities, key.0.as_str()) {
                Some(e) => entity_hit(&e, q.as_str()),
                None => false,
            };
            let to_hit = match entity_table_get(&self.entities, key.1.as_str()) {
                Some(e) => entity_hit(&e, q.as_str()),
                None => false,
            };
            proof {
                assert(from_hit == hit.dom().contains(k.0));
                assert(to_hit == hit.dom().contains(k.1));
            }
            if from_hit || to_hit {
                let rel = Relation { from: key.0.clone(), to: key.1.clone(), relation_type: key.2.clone() };
                proof {
                    let tv = relations_view(touching@);
                    assert(rel@ == k);
                    assert(!tv.contains(k)) by {
                        if tv.contains(k) {
                            assert(tv.to_set().contains(k));
                        }
                    }
                    assert(relations_view(touching@.push(rel)) =~= tv.push(k));
                    lemma_push_no_duplicates(tv, k);
                    lemma_push_to_set(tv, k);
                    assert(tv.push(k).to_set() =~= kv.take(j + 1).to_set().filter(
                        |r: RelationView| hit.dom().contains(r.0) || hit.dom().contains(r.1),
                    ));
                }
                touching.push(rel);
            } else {
                proof {
                    assert(relations_view(touching@).to_set() =~= kv.take(j + 1).to_set().filter(
                        |r: RelationView| hit.dom().contains(r.0) || hit.dom().contains(r.1),
                    ));
                }
            }
        }
        proof {
            assert(kv.take(keys@.len() as int) =~= kv);
            assert(relations_view(touching@).to_set() =~= relations_touching(rels, hit.dom()));
            if query@.len() == 0 {
                lemma_empty_query_finds_all(self@, q@);
            }
            lemma_search_finds_hits(self@, q@, entities_view(found@));
        }
        (found, touching)
    }

    /// Checks that every relation joins two stored entities: for each relation, in no
    /// stated order, one message per missing end (source first). A well-formed graph
    /// has no missing end, so there the list is empty.
    pub fn validate_graph(&self) -> (errors: Vec<String>)
        ensures
            exists|rs: Seq<RelationView>|
                lists_relations(self@.relations, rs) && strings_view(errors@)
                    == #[trigger] dangling_messages(self@.entities, rs),
            self.wf() ==> errors@.len() == 0,
    {
        let keys = relation_table_keys(&self.relations);
        let ghost kv = relation_keys_view(keys@);
        let ghost ents = self@.entities;
        let mut errors: Vec<String> = Vec::new();
        for j in 0..keys.len()
            invariant
                kv == relation_keys_view(keys@),
                kv.to_set() == self@.relations,
                ents == self@.entities,
                strings_view(errors@) == dangling_messages(ents, kv.take(j as int)),
                self.wf() ==> errors@.len() == 0,
        {
            let key = &keys[j];
            let ghost before = strings_view(errors@);
            proof {
                assert(kv[j as int] == key@);
                assert(kv.to_set().contains(key@));
                assert(kv.take(j + 1).drop_last() =~= kv.take(j as int));
                assert(kv.take(j + 1).last() == key@);
            }
            if !entity_table_contains(&self.entities, key.0.as_str()) {
                let m = concat("Relation from non-existent entity: ", key.0.as_str());
                proof {
                    lemma_strings_view_push(errors@, m);
                }
                errors.push(m);
            }
            let ghost mid = strings_view(errors@);
            if !entity_table_contains(&self.entities, key.1.as_str()) {
                let m = concat("Relation to non-existent entity: ", key.1.as_str());
                proof {
                    lemma_strings_view_push(errors@, m);
                }
                errors.push(m);
            }
            proof {
                assert(strings_view(errors@) =~= before + missing_ends(ents, key@));
            }
        }
        proof {
            assert(kv.take(keys@.len() as int) =~= kv);
            assert(lists_relations(self@.relations, kv));
        }
        errors
    }

    /// The stored entities among the given names, in the order of the names.
    pub fn get_entities(&self, names: Vec<String>) -> (r: Vec<Entity>)
        requires
            self.wf(),
        ensures
            entities_view(r@) == lookup_entities(self@.entities, strings_view(names@)),
    {
        let ghost nv = strings_view(names@);
        let mut result: Vec<Entity> = Vec::new();
        for i in 0..names.len()
            invariant
                nv == strings_view(names@),
                entities_view(result@) == lookup_entities(self@.entities, nv.take(i as int)),
        {
            proof {
                assert(nv.take(i + 1).drop_last() =~= nv.take(i as int));
                assert(nv.take(i + 1).last() == names@[i as int]@);
            }
            match entity_table_get(&self.entities, names[i].as_str()) {
                Some(e) => {
                    proof {
                        assert(entities_view(result@.push(e)) =~= entities_view(result@).push(e@));
                    }
                    result.push(e);
                },
                None => {},
            }
        }
        proof {
            assert(nv.take(names@.len() as int) =~= nv);
        }
        result
    }
}

/// The strings of `obs` that are not among `removals`, in their order.
fn retain_observations(obs: &Vec<String>, removals: &Vec<String>) -> (r: Vec<String>)
    ensures
        strings_view(r@) == without(strings_view(obs@), strings_view(removals@)),
{
    let ghost ov = strings_view(obs@);
    let mut r: Vec<String> = Vec::new();
    for i in 0..obs.len()
        invariant
            ov == strings_view(obs@),
            strings_view(r@) == without(ov.take(i as int), strings_view(removals@)),
    {
        proof {
            assert(ov.take(i + 1).drop_last() =~= ov.take(i as int));
            assert(ov.take(i + 1).last() == obs@[i as int]@);
        }
        if !strings_contain(removals, &obs[i]) {
            let c = obs[i].clone();
            proof {
                lemma_strings_view_push(r@, c);
            }
            r.push(c);
        }
    }
    proof {
        assert(ov.take(obs@.len() as int) =~= ov);
    }
    r
}

} // verus!