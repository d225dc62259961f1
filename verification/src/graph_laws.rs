use crate::graph::{
    absorb_entities, absorb_entity, admitted_relations, after_create_entities,
    after_add_observations, after_create_relations, after_delete_entities, change_recorded, entity_matches, graph_wf,
    lookup_entities,
    matching_entities, removed_names, MemoryGraph, lemma_merge_extends,
    lists_entities, lists_relations, merge_observations, names_of, without, GraphView,
};
use crate::models::{EntityView, RelationView};
use crate::text::{
    ascii_lower_char, ascii_lowercase, ascii_upper_char, ascii_uppercase, is_ascii_text, lowercase,
    occurs_in,
};
use vstd::prelude::*;

verus! {

/// Folding entities with distinct names into an empty map stores each as given.
proof fn lemma_absorb_distinct(es: Seq<EntityView>)
    requires
        names_of(es).no_duplicates(),
    ensures
        absorb_entities(Map::empty(), es).0.dom() == names_of(es).to_set(),
        forall|i: int|
            0 <= i < es.len() ==> absorb_entities(Map::empty(), es).0[#[trigger] es[i].name]
                == es[i],
    decreases es.len(),
{
    let m = absorb_entities(Map::empty(), es).0;
    if es.len() == 0 {
        assert(names_of(es).to_set() =~= Set::empty());
        assert(m =~= Map::empty());
    } else {
        let init = es.drop_last();
        let x = es.last();
        assert(names_of(init) =~= names_of(es).drop_last());
        assert(names_of(init).no_duplicates()) by {
            assert forall|i: int, j: int|
                0 <= i < names_of(init).len() && 0 <= j < names_of(init).len() && i != j implies names_of(
                init,
            )[i] != names_of(init)[j] by {
                assert(names_of(init)[i] == names_of(es)[i]);
                assert(names_of(init)[j] == names_of(es)[j]);
            }
        }
        lemma_absorb_distinct(init);
        let prev = absorb_entities(Map::empty(), init).0;
        assert(!prev.contains_key(x.name)) by {
            if prev.contains_key(x.name) {
                assert(names_of(init).to_set().contains(x.name));
                let k = choose|k: int| 0 <= k < names_of(init).len() && names_of(init)[k] == x.name;
                assert(names_of(es)[k] == names_of(es)[es.len() - 1]);
            }
        }
        assert(m == prev.insert(x.name, x));
        assert(names_of(es) =~= names_of(init).push(x.name));
        assert forall|n: Seq<char>| m.dom().contains(n) <==> names_of(es).to_set().contains(n) by {
            if n == x.name {
                assert(names_of(es)[es.len() - 1] == n);
            } else if names_of(init).contains(n) {
                let k = choose|k: int| 0 <= k < names_of(init).len() && names_of(init)[k] == n;
                assert(names_of(es)[k] == n);
            } else if names_of(es).contains(n) {
                let k = choose|k: int| 0 <= k < names_of(es).len() && names_of(es)[k] == n;
                assert(names_of(init)[k] == n);
            }
        }
        assert(m.dom() =~= names_of(es).to_set());
        assert forall|i: int| 0 <= i < es.len() implies m[#[trigger] es[i].name] == es[i] by {
            if i < es.len() - 1 {
                assert(init[i] == es[i]);
                assert(names_of(es)[i] != names_of(es)[es.len() - 1]);
            }
        }
    }
}

/// Saving and loading give back the same graph: a well-formed graph, listed as
/// `to_serializable` lists it, is rebuilt by `from_serializable` with the same entities
/// and the same relations.
pub proof fn lemma_save_load_roundtrip(
    g: GraphView,
    es: Seq<EntityView>,
    rs: Seq<(Seq<char>, Seq<char>, Seq<char>)>,
)
    requires
        graph_wf(g),
        lists_entities(g.entities, es),
        lists_relations(g.relations, rs),
    ensures
        after_create_relations(after_create_entities(MemoryGraph::new_view(), es), rs).entities
            == g.entities,
        after_create_relations(after_create_entities(MemoryGraph::new_view(), es), rs).relations
            == g.relations,
{
    lemma_absorb_distinct(es);
    let m = absorb_entities(Map::empty(), es).0;
    assert forall|n: Seq<char>| #[trigger] m.contains_key(n) implies m[n] == g.entities[n] by {
        let k = choose|k: int| 0 <= k < names_of(es).len() && names_of(es)[k] == n;
        assert(es[k].name == n);
    }
    assert(m =~= g.entities);
    assert(admitted_relations(g.entities, rs) =~= g.relations);
    assert(Set::<(Seq<char>, Seq<char>, Seq<char>)>::empty().union(g.relations) =~= g.relations);
}

/// Merging observations that change nothing in length changes nothing at all.
pub proof fn lemma_merge_same_length(existing: Seq<Seq<char>>, incoming: Seq<Seq<char>>)
    requires
        merge_observations(existing, incoming).len() == existing.len(),
    ensures
        merge_observations(existing, incoming) == existing,
{
    lemma_merge_extends(existing, incoming);
    assert(merge_observations(existing, incoming) =~= merge_observations(existing, incoming).subrange(
        0,
        existing.len() as int,
    ));
}

/// Folding an entity that reports no change leaves the map as it was, for a map that
/// stores each entity under its own name.
pub proof fn lemma_absorb_entity_unchanged(m: Map<Seq<char>, EntityView>, e: EntityView)
    requires
        forall|n: Seq<char>| #[trigger] m.contains_key(n) ==> m[n].name == n,
        !absorb_entity(m, e).1,
    ensures
        absorb_entity(m, e).0 == m,
{
    let old = m[e.name];
    lemma_merge_same_length(old.observations, e.observations);
    assert(absorb_entity(m, e).0 =~= m);
}

/// Folding a list of entities into the graph changes the entity map only when the fold
/// reports a change: no change goes unrecorded.
pub proof fn lemma_absorb_unchanged(m: Map<Seq<char>, EntityView>, es: Seq<EntityView>)
    requires
        forall|n: Seq<char>| #[trigger] m.contains_key(n) ==> m[n].name == n,
        !absorb_entities(m, es).1,
    ensures
        absorb_entities(m, es).0 == m,
    decreases es.len(),
{
    if es.len() > 0 {
        lemma_absorb_unchanged(m, es.drop_last());
        lemma_absorb_entity_unchanged(m, es.last());
    }
}

/// After merging, every incoming and every existing observation is present.
pub proof fn lemma_merge_contains_all(existing: Seq<Seq<char>>, incoming: Seq<Seq<char>>)
    ensures
        forall|o: Seq<char>|
            existing.contains(o) || incoming.contains(o) ==> #[trigger] merge_observations(
                existing,
                incoming,
            ).contains(o),
    decreases incoming.len(),
{
    if incoming.len() > 0 {
        let init = incoming.drop_last();
        lemma_merge_contains_all(existing, init);
        let prev = merge_observations(existing, init);
        let cur = merge_observations(existing, incoming);
        assert forall|o: Seq<char>| existing.contains(o) || incoming.contains(o) implies #[trigger] cur.contains(o) by {
            if o == incoming.last() {
                if !prev.contains(o) {
                    assert(cur[prev.len() as int] == o);
                }
            } else {
                if incoming.contains(o) && !existing.contains(o) {
                    let k = choose|k: int| 0 <= k < incoming.len() && incoming[k] == o;
                    assert(init[k] == o);
                }
                assert(prev.contains(o));
                let k = choose|k: int| 0 <= k < prev.len() && prev[k] == o;
                if !prev.contains(incoming.last()) {
                    assert(cur[k] == o);
                }
            }
        }
    }
}

/// Removing observations keeps exactly those that are not removed: none of the removed
/// ones is left, and every other one stays.
pub proof fn lemma_without_exact(obs: Seq<Seq<char>>, removals: Seq<Seq<char>>)
    ensures
        forall|o: Seq<char>|
            #[trigger] without(obs, removals).contains(o) <==> (obs.contains(o)
                && !removals.contains(o)),
        without(obs, removals).len() <= obs.len(),
        without(obs, removals).len() == obs.len() ==> without(obs, removals) == obs,
    decreases obs.len(),
{
    if obs.len() > 0 {
        let init = obs.drop_last();
        lemma_without_exact(init, removals);
        let prev = without(init, removals);
        let cur = without(obs, removals);
        assert forall|o: Seq<char>| #[trigger] cur.contains(o) <==> (obs.contains(o) && !removals.contains(o)) by {
            if cur.contains(o) {
                let k = choose|k: int| 0 <= k < cur.len() && cur[k] == o;
                if k < prev.len() {
                    assert(prev[k] == o);
                    assert(prev.contains(o));
                    assert(init.contains(o));
                    let j = choose|j: int| 0 <= j < init.len() && init[j] == o;
                    assert(obs[j] == o);
                } else {
                    assert(obs[obs.len() - 1] == o);
                }
            }
            if obs.contains(o) && !removals.contains(o) {
                let j = choose|j: int| 0 <= j < obs.len() && obs[j] == o;
                if j < obs.len() - 1 {
                    assert(init[j] == o);
                    assert(prev.contains(o));
                    let k = choose|k: int| 0 <= k < prev.len() && prev[k] == o;
                    if !removals.contains(obs.last()) {
                        assert(cur[k] == o);
                    }
                } else {
                    assert(cur[cur.len() - 1] == o);
                }
            }
        }
        if cur.len() == obs.len() {
            assert(!removals.contains(obs.last()));
            assert(prev == init);
            assert(cur =~= obs);
        }
    } else {
        assert(without(obs, removals) =~= obs);
    }
}

/// Merging observations that are all present already changes nothing.
proof fn lemma_merge_present(existing: Seq<Seq<char>>, incoming: Seq<Seq<char>>)
    requires
        forall|o: Seq<char>| incoming.contains(o) ==> existing.contains(o),
    ensures
        merge_observations(existing, incoming) == existing,
    decreases incoming.len(),
{
    if incoming.len() > 0 {
        let init = incoming.drop_last();
        assert forall|o: Seq<char>| init.contains(o) implies existing.contains(o) by {
            let k = choose|k: int| 0 <= k < init.len() && init[k] == o;
            assert(incoming[k] == o);
        }
        lemma_merge_present(existing, init);
        assert(incoming.contains(incoming.last())) by {
            assert(incoming[incoming.len() - 1] == incoming.last());
        }
    }
}

/// The type of the last entity named `n` in `es`, if any.
pub open spec fn last_type(es: Seq<EntityView>, n: Seq<char>) -> Option<Seq<char>>
    decreases es.len(),
{
    if es.len() == 0 {
        None
    } else if es.last().name == n {
        Some(es.last().entity_type)
    } else {
        last_type(es.drop_last(), n)
    }
}

/// The map stores `e` under its name with all of `e`'s observations.
pub open spec fn covers(m: Map<Seq<char>, EntityView>, e: EntityView) -> bool {
    &&& m.contains_key(e.name)
    &&& forall|o: Seq<char>|
        e.observations.contains(o) ==> #[trigger] m[e.name].observations.contains(o)
}

/// The map with the type of each entity named in `es` set to that of the last one.
pub open spec fn retype(m: Map<Seq<char>, EntityView>, es: Seq<EntityView>) -> Map<
    Seq<char>,
    EntityView,
> {
    Map::new(
        |n: Seq<char>| m.contains_key(n),
        |n: Seq<char>|
            match last_type(es, n) {
                Some(t) => EntityView { entity_type: t, ..m[n] },
                None => m[n],
            },
    )
}

/// Each entity is stored under its own name.
pub open spec fn keyed_by_name(m: Map<Seq<char>, EntityView>) -> bool {
    forall|n: Seq<char>| #[trigger] m.contains_key(n) ==> m[n].name == n
}

/// Folding entities that the map covers only retypes them.
proof fn lemma_absorb_covered(m: Map<Seq<char>, EntityView>, es: Seq<EntityView>)
    requires
        keyed_by_name(m),
        forall|i: int| 0 <= i < es.len() ==> covers(m, #[trigger] es[i]),
    ensures
        absorb_entities(m, es).0 == retype(m, es),
    decreases es.len(),
{
    if es.len() == 0 {
        assert(retype(m, es) =~= m);
    } else {
        let init = es.drop_last();
        let x = es.last();
        assert forall|i: int| 0 <= i < init.len() implies covers(m, #[trigger] init[i]) by {
            assert(init[i] == es[i]);
        }
        lemma_absorb_covered(m, init);
        let p = retype(m, init);
        assert(covers(m, es[es.len() - 1]));
        assert(p.contains_key(x.name));
        assert(p[x.name].observations == m[x.name].observations);
        lemma_merge_present(p[x.name].observations, x.observations);
        let r = absorb_entities(m, es).0;
        assert forall|n: Seq<char>| #[trigger] r.contains_key(n) implies r[n] == retype(m, es)[n] by {
            if n != x.name {
                assert(last_type(es, n) == last_type(init, n));
            }
        }
        assert(r =~= retype(m, es));
    }
}

/// What a fold of entities leaves: the map stores each entity under its name, covers
/// every folded entity, and gives each folded name the type of its last entity.
proof fn lemma_absorb_facts(m: Map<Seq<char>, EntityView>, es: Seq<EntityView>)
    requires
        keyed_by_name(m),
    ensures
        keyed_by_name(absorb_entities(m, es).0),
        forall|i: int| 0 <= i < es.len() ==> covers(absorb_entities(m, es).0, #[trigger] es[i]),
        retype(absorb_entities(m, es).0, es) == absorb_entities(m, es).0,
    decreases es.len(),
{
    let r = absorb_entities(m, es).0;
    if es.len() == 0 {
        assert(retype(r, es) =~= r);
    } else {
        let init = es.drop_last();
        let x = es.last();
        lemma_absorb_facts(m, init);
        let p = absorb_entities(m, init).0;
        assert(r == absorb_entity(p, x).0);
        if p.contains_key(x.name) {
            lemma_merge_contains_all(p[x.name].observations, x.observations);
        }
        assert forall|i: int| 0 <= i < es.len() implies covers(r, #[trigger] es[i]) by {
            if i < es.len() - 1 {
                assert(init[i] == es[i]);
                assert(covers(p, init[i]));
                if es[i].name == x.name {
                    assert forall|o: Seq<char>| es[i].observations.contains(o) implies #[trigger] r[es[i].name].observations.contains(o) by {
                        assert(p[x.name].observations.contains(o));
                    }
                }
            }
        }
        assert forall|n: Seq<char>| #[trigger] r.contains_key(n) implies retype(r, es)[n] == r[n] by {
            if n != x.name {
                assert(last_type(es, n) == last_type(init, n));
                if p.contains_key(n) {
                    assert(retype(p, init)[n] == p[n]);
                }
            }
        }
        assert(retype(r, es) =~= r);
    }
}

/// With distinct names, the last entity of each name is the one itself.
proof fn lemma_last_type_distinct(es: Seq<EntityView>)
    requires
        names_of(es).no_duplicates(),
    ensures
        forall|i: int|
            0 <= i < es.len() ==> last_type(es, #[trigger] es[i].name) == Some(
                es[i].entity_type,
            ),
    decreases es.len(),
{
    if es.len() > 0 {
        let init = es.drop_last();
        assert(names_of(init) =~= names_of(es).drop_last());
        lemma_last_type_distinct(init);
        assert forall|i: int| 0 <= i < es.len() implies last_type(es, #[trigger] es[i].name)
            == Some(es[i].entity_type) by {
            if i < es.len() - 1 {
                assert(names_of(es)[i] != names_of(es)[es.len() - 1]);
                assert(init[i] == es[i]);
            }
        }
    }
}

/// Folding entities that the map holds already, with their types and observations,
/// leaves the map as it was and changes nothing.
proof fn lemma_absorb_quiet(m: Map<Seq<char>, EntityView>, es: Seq<EntityView>)
    requires
        keyed_by_name(m),
        forall|i: int|
            0 <= i < es.len() ==> covers(m, #[trigger] es[i]) && m[es[i].name].entity_type
                == es[i].entity_type,
    ensures
        absorb_entities(m, es) == (m, false),
    decreases es.len(),
{
    if es.len() > 0 {
        let init = es.drop_last();
        let x = es.last();
        assert forall|i: int| 0 <= i < init.len() implies covers(m, #[trigger] init[i])
            && m[init[i].name].entity_type == init[i].entity_type by {
            assert(init[i] == es[i]);
        }
        lemma_absorb_quiet(m, init);
        assert(covers(m, es[es.len() - 1]));
        lemma_merge_present(m[x.name].observations, x.observations);
        let stored = EntityView {
            name: x.name,
            entity_type: x.entity_type,
            observations: m[x.name].observations,
        };
        assert(stored == m[x.name]);
        assert(m.insert(x.name, stored) =~= m);
    }
}

/// The graph with its change record cleared, as `clear_dirty` leaves it.
pub open spec fn change_cleared(g: GraphView) -> GraphView {
    GraphView { dirty: false, ..g }
}

/// Creating the same entities twice stores the same entities as creating them once;
/// when their names are distinct, the second creation changes nothing at all, so a
/// graph whose change was recorded (and the record cleared) is left unchanged.
pub proof fn lemma_create_entities_idempotent(g: GraphView, es: Seq<EntityView>)
    requires
        graph_wf(g),
    ensures
        after_create_entities(after_create_entities(g, es), es).entities
            == after_create_entities(g, es).entities,
        after_create_entities(after_create_entities(g, es), es).relations == g.relations,
        names_of(es).no_duplicates() ==> after_create_entities(
            change_cleared(after_create_entities(g, es)),
            es,
        ) == change_cleared(after_create_entities(g, es)),
{
    lemma_absorb_facts(g.entities, es);
    let m1 = absorb_entities(g.entities, es).0;
    lemma_absorb_covered(m1, es);
    if names_of(es).no_duplicates() {
        lemma_last_type_distinct(es);
        assert forall|i: int| 0 <= i < es.len() implies covers(m1, #[trigger] es[i])
            && m1[es[i].name].entity_type == es[i].entity_type by {
            let n = es[i].name;
            assert(last_type(es, n) == Some(es[i].entity_type));
            assert(retype(m1, es)[n] == m1[n]);
        }
        lemma_absorb_quiet(m1, es);
    }
}

/// Opening an entity just created under a new name gives back that entity.
pub proof fn lemma_open_after_create(g: GraphView, e: EntityView)
    requires
        !g.entities.contains_key(e.name),
    ensures
        lookup_entities(after_create_entities(g, seq![e]).entities, seq![e.name]) == seq![e],
{
    let es = seq![e];
    assert(es.drop_last() =~= Seq::<EntityView>::empty());
    assert(es.last() == e);
    assert(absorb_entities(g.entities, es.drop_last()) == (g.entities, false));
    let m = after_create_entities(g, es).entities;
    assert(m == g.entities.insert(e.name, e));
    let names = seq![e.name];
    assert(names.drop_last() =~= Seq::<Seq<char>>::empty());
    assert(names.last() == e.name);
    assert(lookup_entities(m, names.drop_last()) == Seq::<EntityView>::empty());
    assert(lookup_entities(m, names) =~= seq![e]);
}

/// Opening a deleted entity gives nothing.
pub proof fn lemma_open_after_delete(g: GraphView, names: Seq<Seq<char>>, n: Seq<char>)
    requires
        names.contains(n),
    ensures
        lookup_entities(after_delete_entities(g, names).entities, seq![n]).len() == 0,
{
    let m = after_delete_entities(g, names).entities;
    assert(!m.contains_key(n)) by {
        assert(names.to_set().contains(n));
        if g.entities.contains_key(n) {
            assert(removed_names(g.entities, names).contains(n));
        }
    }
    let names1 = seq![n];
    assert(names1.drop_last() =~= Seq::<Seq<char>>::empty());
    assert(names1.last() == n);
    assert(lookup_entities(m, names1.drop_last()) == Seq::<EntityView>::empty());
}

/// Searching for the name of a stored entity finds it.
pub proof fn lemma_search_by_name_finds(g: GraphView, n: Seq<char>)
    requires
        graph_wf(g),
        g.entities.contains_key(n),
    ensures
        matching_entities(g.entities, lowercase(n)).contains_key(n),
{
    let q = lowercase(n);
    assert(g.entities[n].name == n);
    assert(q.subrange(0int, 0int + q.len()) =~= q);
    assert(occurs_in(q, lowercase(g.entities[n].name)));
    assert(entity_matches(g.entities[n], q));
}

/// Searching ignores the case of ASCII letters: an ASCII query and the same query with
/// its small letters made capital are lowercased alike, so both find the same entities
/// (and so the same relations).
pub proof fn lemma_search_ignores_ascii_case(g: GraphView, q: Seq<char>)
    requires
        is_ascii_text(q),
    ensures
        is_ascii_text(ascii_uppercase(q)),
        ascii_lowercase(ascii_uppercase(q)) == ascii_lowercase(q),
        matching_entities(g.entities, ascii_lowercase(ascii_uppercase(q))) == matching_entities(
            g.entities,
            ascii_lowercase(q),
        ),
{
    let u = ascii_uppercase(q);
    assert forall|i: int| 0 <= i < u.len() implies (#[trigger] u[i] as u32) < 128 by {
        assert(u[i] == ascii_upper_char(q[i]));
        assert((q[i] as u32) < 128);
    }
    assert forall|i: int| 0 <= i < q.len() implies #[trigger] ascii_lower_char(
        ascii_upper_char(q[i]),
    ) == ascii_lower_char(q[i]) by {
        let c = q[i];
        if 97 <= (c as u32) <= 122 {
            assert((((c as u32) - 32) as char) as u32 == (c as u32) - 32);
        }
    }
    assert(ascii_lowercase(u) =~= ascii_lowercase(q)) by {
        assert forall|i: int| 0 <= i < q.len() implies ascii_lowercase(u)[i] == ascii_lowercase(
            q,
        )[i] by {
            assert(u[i] == ascii_upper_char(q[i]));
            assert(ascii_lower_char(ascii_upper_char(q[i])) == ascii_lower_char(q[i]));
        }
    }
}

/// No change escapes the record over a run of calls: when every call records its own
/// change and keeps an earlier record, the last graph is marked changed or has the
/// entities and relations of the first.
pub proof fn lemma_change_recorded_over_run(states: Seq<GraphView>)
    requires
        states.len() > 0,
        forall|i: int|
            0 <= i < states.len() - 1 ==> change_recorded(#[trigger] states[i], states[i + 1])
                && (states[i].dirty ==> states[i + 1].dirty),
    ensures
        change_recorded(states[0], states.last()),
    decreases states.len(),
{
    if states.len() > 1 {
        let init = states.drop_last();
        assert forall|i: int| 0 <= i < init.len() - 1 implies change_recorded(
            #[trigger] init[i],
            init[i + 1],
        ) && (init[i].dirty ==> init[i + 1].dirty) by {
            assert(init[i] == states[i]);
            assert(init[i + 1] == states[i + 1]);
        }
        lemma_change_recorded_over_run(init);
        assert(init.last() == states[states.len() - 2]);
        assert(change_recorded(states[states.len() - 2], states[states.len() - 1]));
    }
}

/// A search finds every stored entity in whose name, type or any one observation the
/// query occurs (all lowercased), and finds only stored entities, as they are stored.
pub proof fn lemma_search_finds_hits(g: GraphView, q: Seq<char>, found: Seq<EntityView>)
    requires
        graph_wf(g),
        lists_entities(matching_entities(g.entities, q), found),
    ensures
        forall|n: Seq<char>|
            #[trigger] g.entities.contains_key(n) && (occurs_in(q, lowercase(n)) || occurs_in(
                q,
                lowercase(g.entities[n].entity_type),
            )) ==> found.contains(g.entities[n]),
        forall|n: Seq<char>, i: int|
            g.entities.contains_key(n) && 0 <= i < g.entities[n].observations.len() && occurs_in(
                q,
                lowercase(#[trigger] g.entities[n].observations[i]),
            ) ==> found.contains(g.entities[n]),
        forall|e: EntityView| #[trigger]
            found.contains(e) ==> g.entities.contains_key(e.name) && g.entities[e.name] == e,
{
    let hit = matching_entities(g.entities, q);
    assert forall|n: Seq<char>| #[trigger] hit.contains_key(n) implies found.contains(g.entities[n]) by {
        assert(names_of(found).to_set().contains(n));
        let k = choose|k: int| 0 <= k < names_of(found).len() && names_of(found)[k] == n;
        assert(found[k].name == n);
        assert(hit[found[k].name] == found[k]);
    }
    assert forall|n: Seq<char>|
        #[trigger] g.entities.contains_key(n) && (occurs_in(q, lowercase(n)) || occurs_in(
            q,
            lowercase(g.entities[n].entity_type),
        )) implies found.contains(g.entities[n]) by {
        assert(g.entities[n].name == n);
        assert(entity_matches(g.entities[n], q));
        assert(hit.contains_key(n));
    }
    assert forall|n: Seq<char>, i: int|
        g.entities.contains_key(n) && 0 <= i < g.entities[n].observations.len() && occurs_in(
            q,
            lowercase(#[trigger] g.entities[n].observations[i]),
        ) implies found.contains(g.entities[n]) by {
        assert(entity_matches(g.entities[n], q));
        assert(hit.contains_key(n));
    }
    assert forall|e: EntityView| #[trigger]
        found.contains(e) implies g.entities.contains_key(e.name) && g.entities[e.name] == e by {
        let k = choose|k: int| 0 <= k < found.len() && found[k] == e;
        assert(names_of(found)[k] == e.name);
        assert(names_of(found).to_set().contains(e.name));
        assert(hit.contains_key(e.name));
    }
}

/// Adding observations to an entity keeps the stored names and every observation
/// already stored, and leaves each added observation in the entity when it exists.
pub proof fn lemma_add_observations_keeps_and_adds(
    g: GraphView,
    name: Seq<char>,
    obs: Seq<Seq<char>>,
)
    ensures
        after_add_observations(g, name, obs).entities.dom() == g.entities.dom(),
        forall|n: Seq<char>, o: Seq<char>|
            g.entities.contains_key(n) && #[trigger] g.entities[n].observations.contains(o)
                ==> after_add_observations(g, name, obs).entities[n].observations.contains(o),
        g.entities.contains_key(name) ==> forall|k: int|
            0 <= k < obs.len() ==> after_add_observations(g, name, obs).entities[name].observations.contains(
                #[trigger] obs[k],
            ),
{
    let a = after_add_observations(g, name, obs);
    if g.entities.contains_key(name) {
        let e = g.entities[name];
        lemma_merge_contains_all(e.observations, obs);
        assert(a.entities.dom() =~= g.entities.dom());
        assert forall|k: int| 0 <= k < obs.len() implies a.entities[name].observations.contains(
            #[trigger] obs[k],
        ) by {
            assert(obs.contains(obs[k]));
        }
    }
}

/// Removing observations keeps, in their order, exactly those that are not removed.
pub proof fn lemma_without_keeps_order(obs: Seq<Seq<char>>, removals: Seq<Seq<char>>)
    ensures
        without(obs, removals) == obs.filter(|o: Seq<char>| !removals.contains(o)),
    decreases obs.len(),
{
    reveal(Seq::filter);
    if obs.len() > 0 {
        lemma_without_keeps_order(obs.drop_last(), removals);
    }
}

/// After creating entities: each given entity is stored under its name with all its
/// observations, and with its type when no later given entity has its name; every
/// observation stored before is kept; an entity not named is kept as it was; no other
/// entity appears; and the relations stay as they were.
pub open spec fn entities_created(before: GraphView, after: GraphView, es: Seq<EntityView>) -> bool {
    &&& forall|i: int|
        0 <= i < es.len() ==> after.entities.contains_key(#[trigger] es[i].name) && forall|o: Seq<char>|
            es[i].observations.contains(o) ==> #[trigger] after.entities[es[i].name].observations.contains(o)
    &&& forall|i: int|
        0 <= i < es.len() && (forall|j: int| i < j < es.len() ==> #[trigger] es[j].name != es[i].name)
            ==> after.entities[#[trigger] es[i].name].entity_type == es[i].entity_type
    &&& forall|n: Seq<char>, o: Seq<char>|
        before.entities.contains_key(n) && #[trigger] before.entities[n].observations.contains(o)
            ==> after.entities[n].observations.contains(o)
    &&& forall|n: Seq<char>|
        #[trigger] before.entities.contains_key(n) && !names_of(es).contains(n) ==> after.entities.contains_key(n)
            && after.entities[n] == before.entities[n]
    &&& forall|n: Seq<char>|
        #[trigger] after.entities.contains_key(n) ==> before.entities.contains_key(n) || names_of(es).contains(n)
    &&& after.relations == before.relations
}

/// After creating relations: each given relation whose two ends are stored is stored,
/// every relation stored before is kept, no other relation appears, and the entities
/// stay as they were.
pub open spec fn relations_created(before: GraphView, after: GraphView, rs: Seq<RelationView>) -> bool {
    &&& forall|k: int|
        0 <= k < rs.len() && before.entities.contains_key(rs[k].0) && before.entities.contains_key(
            rs[k].1,
        ) ==> after.relations.contains(#[trigger] rs[k])
    &&& forall|r: RelationView| #[trigger] before.relations.contains(r) ==> after.relations.contains(r)
    &&& forall|r: RelationView|
        #[trigger] after.relations.contains(r) ==> before.relations.contains(r) || (rs.contains(r)
            && before.entities.contains_key(r.0) && before.entities.contains_key(r.1))
    &&& after.entities == before.entities
}

/// The type of the last entity named `n` is that of the entity at `i` when no later one
/// has its name.
proof fn lemma_last_type_at(es: Seq<EntityView>, i: int)
    requires
        0 <= i < es.len(),
        forall|j: int| i < j < es.len() ==> #[trigger] es[j].name != es[i].name,
    ensures
        last_type(es, es[i].name) == Some(es[i].entity_type),
    decreases es.len(),
{
    if i < es.len() - 1 {
        let init = es.drop_last();
        assert(es[es.len() - 1].name != es[i].name);
        assert forall|j: int| i < j < init.len() implies #[trigger] init[j].name != init[i].name by {
            assert(init[j] == es[j]);
        }
        lemma_last_type_at(init, i);
    }
}

/// Folding entities touches only the names folded: every other stored entity stays,
/// every stored observation stays, and no other name appears.
proof fn lemma_absorb_frame(m: Map<Seq<char>, EntityView>, es: Seq<EntityView>)
    ensures
        forall|n: Seq<char>|
            #[trigger] m.contains_key(n) && !names_of(es).contains(n) ==> absorb_entities(m, es).0.contains_key(n)
                && absorb_entities(m, es).0[n] == m[n],
        forall|n: Seq<char>, o: Seq<char>|
            m.contains_key(n) && #[trigger] m[n].observations.contains(o) ==> absorb_entities(
                m,
                es,
            ).0.contains_key(n) && absorb_entities(m, es).0[n].observations.contains(o),
        forall|n: Seq<char>|
            #[trigger] absorb_entities(m, es).0.contains_key(n) ==> m.contains_key(n) || names_of(
                es,
            ).contains(n),
    decreases es.len(),
{
    if es.len() > 0 {
        let init = es.drop_last();
        let x = es.last();
        lemma_absorb_frame(m, init);
        let p = absorb_entities(m, init).0;
        let r = absorb_entities(m, es).0;
        assert(r == absorb_entity(p, x).0);
        assert(names_of(init) =~= names_of(es).drop_last());
        assert(names_of(es)[es.len() - 1] == x.name);
        assert forall|n: Seq<char>| #[trigger] m.contains_key(n) && !names_of(es).contains(n) implies r.contains_key(n)
            && r[n] == m[n] by {
            assert(!names_of(init).contains(n)) by {
                if names_of(init).contains(n) {
                    let k = choose|k: int| 0 <= k < names_of(init).len() && names_of(init)[k] == n;
                    assert(names_of(es)[k] == n);
                }
            }
        }
        if p.contains_key(x.name) {
            lemma_merge_contains_all(p[x.name].observations, x.observations);
        }
        assert forall|n: Seq<char>, o: Seq<char>| m.contains_key(n) && #[trigger] m[n].observations.contains(o) implies r.contains_key(n)
            && r[n].observations.contains(o) by {
            assert(p.contains_key(n) && p[n].observations.contains(o));
        }
        assert forall|n: Seq<char>| #[trigger] r.contains_key(n) implies m.contains_key(n) || names_of(es).contains(n) by {
            if n == x.name {
                assert(names_of(es).contains(n));
            } else {
                assert(p.contains_key(n));
                if names_of(init).contains(n) {
                    let k = choose|k: int| 0 <= k < names_of(init).len() && names_of(init)[k] == n;
                    assert(names_of(es)[k] == n);
                }
            }
        }
    }
}

/// Creating entities stores each given one, keeps what was stored, and adds nothing else.
pub proof fn lemma_create_entities_law(g: GraphView, es: Seq<EntityView>)
    requires
        graph_wf(g),
    ensures
        entities_created(g, after_create_entities(g, es), es),
{
    lemma_absorb_facts(g.entities, es);
    lemma_absorb_frame(g.entities, es);
    let r = absorb_entities(g.entities, es).0;
    assert forall|i: int| 0 <= i < es.len() implies r.contains_key(#[trigger] es[i].name) && forall|o: Seq<char>|
        es[i].observations.contains(o) ==> #[trigger] r[es[i].name].observations.contains(o) by {
        assert(covers(r, es[i]));
    }
    assert forall|i: int|
        0 <= i < es.len() && (forall|j: int| i < j < es.len() ==> #[trigger] es[j].name != es[i].name)
            implies r[#[trigger] es[i].name].entity_type == es[i].entity_type by {
        lemma_last_type_at(es, i);
        assert(covers(r, es[i]));
        assert(retype(r, es)[es[i].name] == r[es[i].name]);
    }
}

/// Creating relations stores each given one whose ends are stored, keeps what was
/// stored, and adds nothing else.
pub proof fn lemma_create_relations_law(g: GraphView, rs: Seq<RelationView>)
    ensures
        relations_created(g, after_create_relations(g, rs), rs),
{
    let a = after_create_relations(g, rs);
    assert forall|k: int|
        0 <= k < rs.len() && g.entities.contains_key(rs[k].0) && g.entities.contains_key(rs[k].1)
            implies a.relations.contains(#[trigger] rs[k]) by {
        assert(rs.to_set().contains(rs[k]));
        assert(admitted_relations(g.entities, rs).contains(rs[k]));
    }
}

/// `found` holds stored entities only, each under a listed name, and holds the stored
/// entity of every listed name that is stored.
pub open spec fn entities_opened(
    m: Map<Seq<char>, EntityView>,
    names: Seq<Seq<char>>,
    found: Seq<EntityView>,
) -> bool {
    &&& forall|e: EntityView| #[trigger]
        found.contains(e) ==> m.contains_key(e.name) && m[e.name] == e && names.contains(e.name)
    &&& forall|k: int|
        0 <= k < names.len() && m.contains_key(#[trigger] names[k]) ==> found.contains(m[names[k]])
}

/// Opening entities by name gives stored entities only, each under a listed name, and
/// gives the stored entity of every listed name that is stored.
pub proof fn lemma_open_law(m: Map<Seq<char>, EntityView>, names: Seq<Seq<char>>)
    requires
        keyed_by_name(m),
    ensures
        entities_opened(m, names, lookup_entities(m, names)),
        forall|e: EntityView| #[trigger]
            lookup_entities(m, names).contains(e) ==> m.contains_key(e.name) && m[e.name] == e
                && names.contains(e.name),
        forall|k: int|
            0 <= k < names.len() && m.contains_key(#[trigger] names[k]) ==> lookup_entities(m, names).contains(
                m[names[k]],
            ),
    decreases names.len(),
{
    if names.len() > 0 {
        let init = names.drop_last();
        let x = names.last();
        lemma_open_law(m, init);
        let prev = lookup_entities(m, init);
        let cur = lookup_entities(m, names);
        assert forall|e: EntityView| #[trigger] cur.contains(e) implies m.contains_key(e.name) && m[e.name] == e
            && names.contains(e.name) by {
            let k = choose|k: int| 0 <= k < cur.len() && cur[k] == e;
            if k < prev.len() {
                assert(prev[k] == e);
                assert(prev.contains(e));
                let j = choose|j: int| 0 <= j < init.len() && init[j] == e.name;
                assert(names[j] == e.name);
            } else {
                assert(e == m[x]);
                assert(names[names.len() - 1] == x);
            }
        }
        assert forall|k: int| 0 <= k < names.len() && m.contains_key(#[trigger] names[k]) implies cur.contains(
            m[names[k]],
        ) by {
            if k < names.len() - 1 {
                assert(init[k] == names[k]);
                assert(prev.contains(m[names[k]]));
                let j = choose|j: int| 0 <= j < prev.len() && prev[j] == m[names[k]];
                assert(cur[j] == prev[j]);
            } else {
                assert(cur[cur.len() - 1] == m[x]);
            }
        }
    }
}

} // verus!
