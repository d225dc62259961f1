use mcp_memory_server_rust::graph::MemoryGraph;
use mcp_memory_server_rust::models::{Entity, MemoryScope};
use mcp_memory_server_rust::protocol::{
    CallToolParams, CreateEntitiesParams, ResourceContext, RpcPayload, RpcRequest, ToolArguments,
};
use mcp_memory_server_rust::registry::{file_name, join_path, GraphRegistry};
use mcp_memory_server_rust::text::{contains_str, trim_end_matches, trim_start_matches};

fn create_request(name: &str) -> RpcRequest {
    RpcRequest {
        method: "tools/call".to_string(),
        is_notification: false,
        has_params: true,
        tool_call: Some(CallToolParams {
            name: "create_entities".to_string(),
            arguments: ToolArguments {
                create_entities: Some(CreateEntitiesParams {
                    entities: vec![Entity {
                        name: name.to_string(),
                        entity_type: "T".to_string(),
                        observations: vec![],
                    }],
                }),
                create_relations: None,
                add_observations: None,
                search_nodes: None,
                open_nodes: None,
                delete_entities: None,
                delete_observations: None,
                delete_relations: None,
            },
        }),
        protocol_version: None,
        uri: None,
    }
}

fn ctx() -> ResourceContext {
    ResourceContext { storage_root: "storage".to_string(), docs_dir: None }
}

#[test]
fn graph_files_follow_the_storage_layout() {
    let registry = GraphRegistry::new("storage".to_string());
    assert_eq!(registry.resolve_path("proj", &MemoryScope::Shared), "storage/proj/shared.json");
    assert_eq!(
        registry.resolve_path("proj", &MemoryScope::Agent("a1".to_string())),
        "storage/proj/agent_a1.json"
    );
    let registry = GraphRegistry::new("storage/".to_string());
    assert_eq!(registry.resolve_path("proj", &MemoryScope::Shared), "storage/proj/shared.json");
    assert_eq!(file_name(&MemoryScope::Agent("x".to_string())), "agent_x.json");
    assert_eq!(join_path("root", "/abs"), "/abs");
    assert_eq!(join_path("", "rel"), "rel");
}

#[test]
fn scope_names() {
    assert_eq!(MemoryScope::Shared.to_string(), "shared");
    assert_eq!(MemoryScope::Agent("bot".to_string()).to_string(), "agent_bot");
}

#[test]
fn payloads_reach_only_loaded_graphs() {
    let mut registry = GraphRegistry::new("storage".to_string());
    let payload = RpcPayload::Single(create_request("A"));
    assert!(registry.handle_payload("p", &MemoryScope::Shared, &payload, &ctx()).is_none());
    assert!(!registry.is_loaded("p", &MemoryScope::Shared));
    registry.install("p", &MemoryScope::Shared, MemoryGraph::new());
    assert!(registry.is_loaded("p", &MemoryScope::Shared));
    assert!(!registry.is_loaded("p", &MemoryScope::Agent("a".to_string())));
    let out = registry.handle_payload("p", &MemoryScope::Shared, &payload, &ctx()).unwrap();
    assert_eq!(out.replies.len(), 1);
}

#[test]
fn install_keeps_a_loaded_graph() {
    let mut registry = GraphRegistry::new("storage".to_string());
    registry.install("p", &MemoryScope::Shared, MemoryGraph::new());
    registry.handle_payload("p", &MemoryScope::Shared, &RpcPayload::Single(create_request("A")), &ctx());
    registry.install("p", &MemoryScope::Shared, MemoryGraph::new());
    let jobs = registry.save_jobs();
    assert_eq!(jobs.len(), 1);
    assert_eq!(jobs[0].graph.entities.len(), 1);
}

#[test]
fn only_changed_graphs_are_saved_until_marked() {
    let mut registry = GraphRegistry::new("root".to_string());
    registry.install("p", &MemoryScope::Shared, MemoryGraph::new());
    registry.install("q", &MemoryScope::Agent("a".to_string()), MemoryGraph::new());
    assert!(registry.save_jobs().is_empty());
    registry.handle_payload("q", &MemoryScope::Agent("a".to_string()), &RpcPayload::Single(create_request("X")), &ctx());
    let jobs = registry.save_jobs();
    assert_eq!(jobs.len(), 1);
    assert_eq!(jobs[0].project_id, "q");
    assert_eq!(jobs[0].path, "root/q/agent_a.json");
    assert_eq!(jobs[0].graph.entities[0].name, "X");
    assert!(registry.mark_saved(&jobs[0]));
    assert!(registry.save_jobs().is_empty());
}

#[test]
fn text_helpers() {
    assert!(contains_str("hello world", "lo w"));
    assert!(contains_str("abc", ""));
    assert!(!contains_str("abc", "abcd"));
    assert_eq!(trim_start_matches("xxabc", "x"), "abc");
    assert_eq!(trim_end_matches("abc/raw/raw", "/raw"), "abc");
    assert_eq!(trim_start_matches("abc", ""), "abc");
}

#[test]
fn one_graph_per_project_and_scope() {
    let mut registry = GraphRegistry::new("root".to_string());
    let bot = MemoryScope::Agent("bot".to_string());
    let other = MemoryScope::Agent("other".to_string());
    registry.install("p", &MemoryScope::Shared, MemoryGraph::new());
    registry.install("p", &bot, MemoryGraph::new());
    registry.install("p", &other, MemoryGraph::new());
    registry.install("q", &MemoryScope::Shared, MemoryGraph::new());
    registry.handle_payload("p", &bot, &RpcPayload::Single(create_request("A")), &ctx());
    registry.handle_payload("p", &bot, &RpcPayload::Single(create_request("B")), &ctx());
    let jobs = registry.save_jobs();
    assert_eq!(jobs.len(), 1);
    assert_eq!(jobs[0].path, "root/p/agent_bot.json");
    let mut names: Vec<String> = jobs[0].graph.entities.iter().map(|e| e.name.clone()).collect();
    names.sort();
    assert_eq!(names, vec!["A".to_string(), "B".to_string()]);
}

#[test]
fn a_change_after_the_jobs_stays_to_be_saved() {
    let mut registry = GraphRegistry::new("root".to_string());
    registry.install("p", &MemoryScope::Shared, MemoryGraph::new());
    registry.handle_payload("p", &MemoryScope::Shared, &RpcPayload::Single(create_request("A")), &ctx());
    let jobs = registry.save_jobs();
    assert_eq!(jobs.len(), 1);
    registry.handle_payload("p", &MemoryScope::Shared, &RpcPayload::Single(create_request("B")), &ctx());
    assert!(!registry.mark_saved(&jobs[0]));
    let again = registry.save_jobs();
    assert_eq!(again.len(), 1);
    assert_eq!(again[0].graph.entities.len(), 2);
    assert!(registry.mark_saved(&again[0]));
    assert!(registry.save_jobs().is_empty());
}
