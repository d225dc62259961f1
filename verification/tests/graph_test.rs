use mcp_memory_server_rust::graph::MemoryGraph;
use mcp_memory_server_rust::models::{Entity, Graph, Relation};

fn entity(name: &str, entity_type: &str, observations: &[&str]) -> Entity {
    Entity {
        name: name.to_string(),
        entity_type: entity_type.to_string(),
        observations: observations.iter().map(|o| o.to_string()).collect(),
    }
}

fn relation(from: &str, to: &str, relation_type: &str) -> Relation {
    Relation {
        from: from.to_string(),
        to: to.to_string(),
        relation_type: relation_type.to_string(),
    }
}

fn strings(v: &[&str]) -> Vec<String> {
    v.iter().map(|s| s.to_string()).collect()
}

fn sorted_names(entities: &[Entity]) -> Vec<String> {
    let mut names: Vec<String> = entities.iter().map(|e| e.name.clone()).collect();
    names.sort();
    names
}

fn relation_triples(relations: &[Relation]) -> Vec<(String, String, String)> {
    let mut v: Vec<(String, String, String)> = relations
        .iter()
        .map(|r| (r.from.clone(), r.to.clone(), r.relation_type.clone()))
        .collect();
    v.sort();
    v
}

fn find<'a>(entities: &'a [Entity], name: &str) -> &'a Entity {
    entities.iter().find(|e| e.name == name).unwrap()
}

#[test]
fn test_create_and_search() {
    let mut graph = MemoryGraph::new();
    assert!(!graph.is_dirty());
    graph.create_entities(vec![entity("Rust", "Language", &["Memory safe"])]);
    assert!(graph.is_dirty());

    let (entities, _) = graph.search_nodes("Rust");
    assert_eq!(entities.len(), 1);
    assert_eq!(entities[0].name.as_str(), "Rust");
}

#[test]
fn new_graph_is_empty_and_clean() {
    let graph = MemoryGraph::new();
    let (entities, relations) = graph.read_graph();
    assert!(entities.is_empty());
    assert!(relations.is_empty());
    assert!(!graph.is_dirty());
}

#[test]
fn creating_a_known_entity_merges_type_and_observations() {
    let mut graph = MemoryGraph::new();
    graph.create_entities(vec![entity("Rust", "Language", &["fast", "safe"])]);
    graph.clear_dirty();
    graph.create_entities(vec![entity("Rust", "Tool", &["safe", "fun", "fun"])]);
    assert!(graph.is_dirty());
    let (entities, _) = graph.read_graph();
    assert_eq!(entities.len(), 1);
    assert_eq!(entities[0].entity_type, "Tool");
    assert_eq!(entities[0].observations, strings(&["fast", "safe", "fun"]));
}

#[test]
fn a_new_entity_keeps_its_observations_as_given() {
    let mut graph = MemoryGraph::new();
    graph.create_entities(vec![entity("A", "T", &["x", "x"])]);
    let (entities, _) = graph.read_graph();
    assert_eq!(entities[0].observations, strings(&["x", "x"]));
}

#[test]
fn recreating_the_same_entity_records_no_change() {
    let mut graph = MemoryGraph::new();
    graph.create_entities(vec![entity("A", "T", &["x"])]);
    graph.clear_dirty();
    graph.create_entities(vec![entity("A", "T", &["x"])]);
    assert!(!graph.is_dirty());
}

#[test]
fn creating_entities_twice_stores_the_same_entities() {
    let batch = vec![entity("X", "A", &["o1"]), entity("X", "B", &["o2"]), entity("Y", "C", &[])];
    let mut once = MemoryGraph::new();
    once.create_entities(batch.clone());
    let mut twice = MemoryGraph::new();
    twice.create_entities(batch.clone());
    twice.create_entities(batch);
    let (a, _) = once.read_graph();
    let (b, _) = twice.read_graph();
    assert_eq!(sorted_names(&a), sorted_names(&b));
    for e in &a {
        let other = find(&b, &e.name);
        assert_eq!(e.entity_type, other.entity_type);
        assert_eq!(e.observations, other.observations);
    }
    assert_eq!(find(&a, "X").entity_type, "B");
    assert_eq!(find(&a, "X").observations, strings(&["o1", "o2"]));
}

#[test]
fn relations_need_both_ends() {
    let mut graph = MemoryGraph::new();
    graph.create_entities(vec![entity("A", "T", &[]), entity("B", "T", &[])]);
    graph.clear_dirty();
    graph.create_relations(vec![relation("A", "B", "knows"), relation("A", "Ghost", "knows")]);
    assert!(graph.is_dirty());
    let (_, relations) = graph.read_graph();
    assert_eq!(relation_triples(&relations), vec![("A".to_string(), "B".to_string(), "knows".to_string())]);
}

#[test]
fn adding_a_known_relation_records_no_change() {
    let mut graph = MemoryGraph::new();
    graph.create_entities(vec![entity("A", "T", &[]), entity("B", "T", &[])]);
    graph.create_relations(vec![relation("A", "B", "knows")]);
    graph.clear_dirty();
    graph.create_relations(vec![relation("A", "B", "knows"), relation("B", "Nobody", "x")]);
    assert!(!graph.is_dirty());
    assert_eq!(graph.read_graph().1.len(), 1);
}

#[test]
fn add_observations_appends_only_missing_ones() {
    let mut graph = MemoryGraph::new();
    graph.create_entities(vec![entity("A", "T", &["one"])]);
    graph.clear_dirty();
    assert!(graph.add_observations("A", strings(&["one", "two", "two"])));
    assert!(graph.is_dirty());
    let entities = graph.get_entities(strings(&["A"]));
    assert_eq!(entities[0].observations, strings(&["one", "two"]));
    graph.clear_dirty();
    assert!(graph.add_observations("A", strings(&["two"])));
    assert!(!graph.is_dirty());
}

#[test]
fn add_observations_to_unknown_entity_fails() {
    let mut graph = MemoryGraph::new();
    assert!(!graph.add_observations("Nobody", strings(&["x"])));
    assert!(!graph.is_dirty());
    assert!(graph.read_graph().0.is_empty());
}

#[test]
fn delete_observations_removes_every_copy() {
    let mut graph = MemoryGraph::new();
    graph.create_entities(vec![entity("A", "T", &["a", "b", "a", "c"])]);
    graph.clear_dirty();
    assert!(graph.delete_observations("A", strings(&["a", "zzz"])));
    assert!(graph.is_dirty());
    assert_eq!(graph.get_entities(strings(&["A"]))[0].observations, strings(&["b", "c"]));
}

#[test]
fn delete_observations_reports_false_when_nothing_goes() {
    let mut graph = MemoryGraph::new();
    graph.create_entities(vec![entity("A", "T", &["a"])]);
    graph.clear_dirty();
    assert!(!graph.delete_observations("A", strings(&["b"])));
    assert!(!graph.delete_observations("Nobody", strings(&["a"])));
    assert!(!graph.is_dirty());
}

#[test]
fn delete_entities_cascades_to_relations() {
    let mut graph = MemoryGraph::new();
    graph.create_entities(vec![entity("A", "T", &[]), entity("B", "T", &[]), entity("C", "T", &[])]);
    graph.create_relations(vec![relation("A", "B", "r"), relation("B", "C", "r"), relation("C", "A", "r")]);
    graph.clear_dirty();
    graph.delete_entities(strings(&["B", "Nobody"]));
    assert!(graph.is_dirty());
    let (entities, relations) = graph.read_graph();
    assert_eq!(sorted_names(&entities), strings(&["A", "C"]));
    assert_eq!(relation_triples(&relations), vec![("C".to_string(), "A".to_string(), "r".to_string())]);
}

#[test]
fn deleting_unknown_entities_records_no_change() {
    let mut graph = MemoryGraph::new();
    graph.create_entities(vec![entity("A", "T", &[])]);
    graph.clear_dirty();
    graph.delete_entities(strings(&["Nobody"]));
    assert!(!graph.is_dirty());
}

#[test]
fn delete_relations_removes_only_those_given() {
    let mut graph = MemoryGraph::new();
    graph.create_entities(vec![entity("A", "T", &[]), entity("B", "T", &[])]);
    graph.create_relations(vec![relation("A", "B", "r"), relation("B", "A", "r")]);
    graph.clear_dirty();
    graph.delete_relations(vec![relation("A", "B", "r"), relation("A", "B", "other")]);
    assert!(graph.is_dirty());
    let (_, relations) = graph.read_graph();
    assert_eq!(relation_triples(&relations), vec![("B".to_string(), "A".to_string(), "r".to_string())]);
    graph.clear_dirty();
    graph.delete_relations(vec![relation("A", "B", "r")]);
    assert!(!graph.is_dirty());
}

#[test]
fn search_is_case_insensitive_and_covers_type_and_observations() {
    let mut graph = MemoryGraph::new();
    graph.create_entities(vec![
        entity("Rust", "Language", &["Memory safe"]),
        entity("Python", "language", &[]),
        entity("Ferris", "Mascot", &["loves RUST"]),
        entity("Other", "Thing", &[]),
    ]);
    graph.create_relations(vec![relation("Ferris", "Rust", "mascot_of"), relation("Other", "Python", "x")]);
    let (entities, relations) = graph.search_nodes("rUsT");
    assert_eq!(sorted_names(&entities), strings(&["Ferris", "Rust"]));
    assert_eq!(relation_triples(&relations).len(), 1);
    let (entities, relations) = graph.search_nodes("LANGUAGE");
    assert_eq!(sorted_names(&entities), strings(&["Python", "Rust"]));
    assert_eq!(relation_triples(&relations).len(), 2);
    let (entities, _) = graph.search_nodes("memory SAFE");
    assert_eq!(sorted_names(&entities), strings(&["Rust"]));
    let (entities, relations) = graph.search_nodes("nothing here");
    assert!(entities.is_empty());
    assert!(relations.is_empty());
}

#[test]
fn get_entities_follows_the_order_of_names() {
    let mut graph = MemoryGraph::new();
    graph.create_entities(vec![entity("A", "T", &[]), entity("B", "U", &[])]);
    let found = graph.get_entities(strings(&["B", "Nobody", "A", "B"]));
    let names: Vec<&str> = found.iter().map(|e| e.name.as_str()).collect();
    assert_eq!(names, vec!["B", "A", "B"]);
    assert_eq!(found[0].entity_type, "U");
}

#[test]
fn validate_graph_finds_no_dangling_relation() {
    let mut graph = MemoryGraph::new();
    graph.create_entities(vec![entity("A", "T", &[]), entity("B", "T", &[])]);
    graph.create_relations(vec![relation("A", "B", "r")]);
    graph.delete_entities(strings(&["A"]));
    assert!(graph.validate_graph().is_empty());
}

#[test]
fn save_and_load_round_trip() {
    let mut graph = MemoryGraph::new();
    graph.create_entities(vec![entity("A", "T", &["x", "x"]), entity("B", "U", &["y"])]);
    graph.create_relations(vec![relation("A", "B", "r")]);
    let saved = graph.to_serializable();
    let loaded = MemoryGraph::from_serializable(saved);
    assert!(!loaded.is_dirty());
    let (a, ra) = graph.read_graph();
    let (b, rb) = loaded.read_graph();
    assert_eq!(sorted_names(&a), sorted_names(&b));
    for e in &a {
        let other = find(&b, &e.name);
        assert_eq!(e.entity_type, other.entity_type);
        assert_eq!(e.observations, other.observations);
    }
    assert_eq!(relation_triples(&ra), relation_triples(&rb));
}

#[test]
fn loading_drops_relations_without_ends() {
    let saved = Graph {
        entities: vec![entity("A", "T", &[])],
        relations: vec![relation("A", "Missing", "r"), relation("A", "A", "self")],
    };
    let loaded = MemoryGraph::from_serializable(saved);
    let (_, relations) = loaded.read_graph();
    assert_eq!(relation_triples(&relations), vec![("A".to_string(), "A".to_string(), "self".to_string())]);
}

#[test]
fn opening_after_create_and_after_delete() {
    let mut graph = MemoryGraph::new();
    graph.create_entities(vec![entity("Fresh", "T", &["o"])]);
    let found = graph.get_entities(strings(&["Fresh"]));
    assert_eq!(found.len(), 1);
    assert_eq!(found[0].entity_type, "T");
    assert_eq!(found[0].observations, strings(&["o"]));
    graph.delete_entities(strings(&["Fresh"]));
    assert!(graph.get_entities(strings(&["Fresh"])).is_empty());
}

#[test]
fn searching_a_name_finds_its_entity() {
    let mut graph = MemoryGraph::new();
    graph.create_entities(vec![entity("Knowledge Grid", "Project", &[]), entity("Other", "X", &[])]);
    let (entities, _) = graph.search_nodes("Knowledge Grid");
    assert_eq!(sorted_names(&entities), strings(&["Knowledge Grid"]));
    let (entities, _) = graph.search_nodes("");
    assert_eq!(entities.len(), 2);
}

#[test]
fn creating_distinct_entities_again_records_no_change() {
    let batch = vec![entity("X", "A", &["o1", "o2"]), entity("Y", "C", &[])];
    let mut graph = MemoryGraph::new();
    graph.create_entities(vec![entity("X", "Old", &["o0"])]);
    graph.create_entities(batch.clone());
    assert!(graph.is_dirty());
    let (before, _) = graph.read_graph();
    graph.clear_dirty();
    graph.create_entities(batch);
    assert!(!graph.is_dirty());
    let (after, _) = graph.read_graph();
    assert_eq!(sorted_names(&before), sorted_names(&after));
    assert_eq!(find(&after, "X").entity_type, "A");
    assert_eq!(find(&after, "X").observations, strings(&["o0", "o1", "o2"]));
}

#[test]
fn empty_search_finds_the_whole_graph() {
    let mut graph = MemoryGraph::new();
    graph.create_entities(vec![entity("A", "T", &["x"]), entity("B", "U", &[])]);
    graph.create_relations(vec![relation("A", "B", "knows")]);
    let (entities, relations) = graph.search_nodes("");
    let (all_entities, all_relations) = graph.read_graph();
    assert_eq!(sorted_names(&entities), sorted_names(&all_entities));
    assert_eq!(relation_triples(&relations), relation_triples(&all_relations));
}

#[test]
fn search_ignores_ascii_case() {
    let mut graph = MemoryGraph::new();
    graph.create_entities(vec![entity("Rust", "Language", &["Memory safe"]), entity("Go", "Language", &[])]);
    graph.create_relations(vec![relation("Rust", "Go", "differs from")]);
    let (e1, r1) = graph.search_nodes("memory SAFE");
    let (e2, r2) = graph.search_nodes("MEMORY SAFE");
    assert_eq!(sorted_names(&e1), vec!["Rust".to_string()]);
    assert_eq!(sorted_names(&e1), sorted_names(&e2));
    assert_eq!(relation_triples(&r1), relation_triples(&r2));
    assert_eq!(r1.len(), 1);
}

#[test]
fn change_record_survives_a_run_of_calls() {
    let mut graph = MemoryGraph::new();
    graph.create_entities(vec![entity("A", "T", &["x"])]);
    graph.clear_dirty();
    graph.add_observations("A", strings(&["y"]));
    graph.add_observations("A", strings(&["y"]));
    graph.delete_relations(vec![relation("A", "A", "self")]);
    assert!(graph.is_dirty());
    graph.clear_dirty();
    graph.delete_observations("A", strings(&["absent"]));
    graph.create_relations(vec![relation("A", "Missing", "r")]);
    assert!(!graph.is_dirty());
}

#[test]
fn holds_compares_content_in_any_order() {
    let mut graph = MemoryGraph::new();
    graph.create_entities(vec![entity("A", "T", &["x"]), entity("B", "U", &[])]);
    graph.create_relations(vec![relation("A", "B", "r")]);
    let same = Graph {
        entities: vec![entity("B", "U", &[]), entity("A", "T", &["x"])],
        relations: vec![relation("A", "B", "r")],
    };
    assert!(graph.holds(&same));
    let other_obs = Graph {
        entities: vec![entity("B", "U", &[]), entity("A", "T", &["y"])],
        relations: vec![relation("A", "B", "r")],
    };
    assert!(!graph.holds(&other_obs));
    let repeated = Graph {
        entities: vec![entity("B", "U", &[]), entity("A", "T", &["x"]), entity("A", "T", &["x"])],
        relations: vec![relation("A", "B", "r")],
    };
    assert!(!graph.holds(&repeated));
    let missing = Graph { entities: vec![entity("A", "T", &["x"])], relations: vec![relation("A", "B", "r")] };
    assert!(!graph.holds(&missing));
    let no_relations = Graph { entities: same.entities.clone(), relations: vec![] };
    assert!(!graph.holds(&no_relations));
}
