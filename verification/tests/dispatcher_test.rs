use mcp_memory_server_rust::dispatcher::{
    negotiate_version, process_payload, protocol_handle_request, resource_catalog,
    resource_source, run_tool, tool_catalog, tool_for_name, Tool,
};
use mcp_memory_server_rust::graph::MemoryGraph;
use mcp_memory_server_rust::models::{Entity, Relation};
use mcp_memory_server_rust::protocol::{
    AddObservationsParams, CallToolParams, CreateEntitiesParams, CreateRelationsParams,
    DeleteEntitiesParams, ObservationEntry, OpenNodesParams, ParamKind, Reply, ResourceContext, RpcPayload,
    RpcRequest, RpcResult, SearchNodesParams, ToolArguments,
};

fn no_args() -> ToolArguments {
    ToolArguments {
        create_entities: None,
        create_relations: None,
        add_observations: None,
        search_nodes: None,
        open_nodes: None,
        delete_entities: None,
        delete_observations: None,
        delete_relations: None,
    }
}

fn entity(name: &str, entity_type: &str, observations: &[&str]) -> Entity {
    Entity {
        name: name.to_string(),
        entity_type: entity_type.to_string(),
        observations: observations.iter().map(|o| o.to_string()).collect(),
    }
}

fn request(method: &str) -> RpcRequest {
    RpcRequest {
        method: method.to_string(),
        is_notification: false,
        has_params: true,
        tool_call: None,
        protocol_version: None,
        uri: None,
    }
}

fn tool_request(name: &str, arguments: ToolArguments) -> RpcRequest {
    let mut r = request("tools/call");
    r.tool_call = Some(CallToolParams { name: name.to_string(), arguments });
    r
}

fn ctx() -> ResourceContext {
    ResourceContext { storage_root: "storage".to_string(), docs_dir: None }
}

fn text_of(reply: &Reply) -> String {
    match reply {
        Reply::Success(RpcResult::ToolText(t)) => t.clone(),
        _ => panic!("expected a tool text"),
    }
}

fn failure_of(reply: &Reply) -> (i32, String) {
    match reply {
        Reply::Failure { code, message } => (*code, message.clone()),
        _ => panic!("expected a failure"),
    }
}

#[test]
fn tool_names_with_and_without_prefix() {
    assert!(matches!(tool_for_name("read_graph"), Some(Tool::ReadGraph)));
    assert!(matches!(tool_for_name("mcp_memory_read_graph"), Some(Tool::ReadGraph)));
    assert!(matches!(tool_for_name("mcp_memory_health_check"), Some(Tool::HealthCheck)));
    assert!(matches!(tool_for_name("delete_observations"), Some(Tool::DeleteObservations)));
    assert!(tool_for_name("memory_read_graph").is_none());
    assert!(tool_for_name("").is_none());
}

#[test]
fn create_entities_tool_then_read_graph() {
    let mut graph = MemoryGraph::new();
    let mut args = no_args();
    args.create_entities = Some(CreateEntitiesParams {
        entities: vec![entity("Permanent", "Statue", &["Solid"])],
    });
    let (reply, version) = protocol_handle_request(&mut graph, &tool_request("create_entities", args), &ctx());
    assert_eq!(text_of(&reply), "Entities created successfully");
    assert!(version.is_none());
    let (reply, _) = protocol_handle_request(&mut graph, &tool_request("read_graph", no_args()), &ctx());
    match reply {
        Reply::Success(RpcResult::GraphDump(entities, relations)) => {
            assert_eq!(entities.len(), 1);
            assert_eq!(entities[0].name, "Permanent");
            assert!(relations.is_empty());
        }
        _ => panic!("expected the graph"),
    }
}

#[test]
fn tool_call_with_missing_arguments_is_invalid() {
    let mut graph = MemoryGraph::new();
    let (reply, _) = protocol_handle_request(&mut graph, &tool_request("create_entities", no_args()), &ctx());
    assert_eq!(failure_of(&reply), (-32602, "Invalid tool call params".to_string()));
    let (reply, _) = protocol_handle_request(&mut graph, &tool_request("no_such_tool", no_args()), &ctx());
    assert_eq!(failure_of(&reply), (-32602, "Invalid tool call params".to_string()));
    let (reply, _) = protocol_handle_request(&mut graph, &request("tools/call"), &ctx());
    assert_eq!(failure_of(&reply), (-32602, "Invalid tool call params".to_string()));
    assert!(graph.read_graph().0.is_empty());
}

#[test]
fn notifications_get_no_reply_but_still_act() {
    let mut graph = MemoryGraph::new();
    let mut args = no_args();
    args.create_entities = Some(CreateEntitiesParams { entities: vec![entity("A", "T", &[])] });
    let mut req = tool_request("mcp_memory_create_entities", args);
    req.is_notification = true;
    let (reply, _) = protocol_handle_request(&mut graph, &req, &ctx());
    assert!(matches!(reply, Reply::Silent));
    assert_eq!(graph.read_graph().0.len(), 1);
    let mut unknown = request("invalid_method");
    unknown.is_notification = true;
    assert!(matches!(protocol_handle_request(&mut graph, &unknown, &ctx()).0, Reply::Silent));
    let initialized = request("notifications/initialized");
    assert!(matches!(protocol_handle_request(&mut graph, &initialized, &ctx()).0, Reply::Silent));
}

#[test]
fn unknown_method_is_not_found() {
    let mut graph = MemoryGraph::new();
    let (reply, _) = protocol_handle_request(&mut graph, &request("invalid_method"), &ctx());
    assert_eq!(failure_of(&reply), (-32601, "Method not found".to_string()));
}

#[test]
fn initialize_negotiates_the_version() {
    assert_eq!(negotiate_version(&None), "2024-11-05");
    assert_eq!(negotiate_version(&Some("2024-10-07".to_string())), "2024-10-07");
    assert_eq!(negotiate_version(&Some("2025-11-25".to_string())), "2025-11-25");
    assert_eq!(negotiate_version(&Some("2025-03-26".to_string())), "2025-11-25");
    assert_eq!(negotiate_version(&Some("invalid-version".to_string())), "2025-11-25");
    let mut graph = MemoryGraph::new();
    let mut req = request("initialize");
    req.protocol_version = Some("2024-11-05".to_string());
    let (reply, version) = protocol_handle_request(&mut graph, &req, &ctx());
    assert_eq!(version, Some("2024-11-05".to_string()));
    match reply {
        Reply::Success(RpcResult::Initialized(v)) => assert_eq!(v, "2024-11-05"),
        _ => panic!("expected initialize result"),
    }
    req.is_notification = true;
    let (reply, version) = protocol_handle_request(&mut graph, &req, &ctx());
    assert!(matches!(reply, Reply::Silent));
    assert_eq!(version, Some("2024-11-05".to_string()));
}

#[test]
fn list_methods_have_their_results() {
    let mut graph = MemoryGraph::new();
    assert!(matches!(protocol_handle_request(&mut graph, &request("tools/list"), &ctx()).0, Reply::Success(RpcResult::ToolCatalog(_))));
    assert!(matches!(protocol_handle_request(&mut graph, &request("list_tools"), &ctx()).0, Reply::Success(RpcResult::ToolCatalog(_))));
    assert!(matches!(protocol_handle_request(&mut graph, &request("resources/list"), &ctx()).0, Reply::Success(RpcResult::ResourceCatalog)));
    assert!(matches!(protocol_handle_request(&mut graph, &request("resources/templates/list"), &ctx()).0, Reply::Success(RpcResult::ResourceTemplates)));
    assert!(matches!(protocol_handle_request(&mut graph, &request("prompts/list"), &ctx()).0, Reply::Success(RpcResult::PromptCatalog)));
}

#[test]
fn resource_read_errors() {
    let mut graph = MemoryGraph::new();
    let mut req = request("resources/read");
    req.has_params = false;
    assert_eq!(failure_of(&protocol_handle_request(&mut graph, &req, &ctx()).0), (-32602, "Missing parameters".to_string()));
    req.has_params = true;
    assert_eq!(failure_of(&protocol_handle_request(&mut graph, &req, &ctx()).0), (-32602, "Missing uri parameter".to_string()));
}

#[test]
fn resource_read_sources() {
    let mut graph = MemoryGraph::new();
    let mut req = request("resources/read");
    req.uri = Some("mcp://invalid".to_string());
    match protocol_handle_request(&mut graph, &req, &ctx()).0 {
        Reply::Success(RpcResult::ResourceContents { uri, source }) => {
            assert_eq!(uri, "mcp://invalid");
            assert!(source.path.is_none());
            assert!(source.fallback.contains("Resource not found"));
        }
        _ => panic!("expected contents"),
    }
    let with_docs = ResourceContext { storage_root: "/data/storage".to_string(), docs_dir: Some("/data/docs".to_string()) };
    let s = resource_source(&with_docs, "mcp://resources/guidelines/effective_work");
    assert_eq!(s.path, Some("/data/docs/effective_work.md".to_string()));
    assert_eq!(s.fallback, "Effective work policy not found");
    let s = resource_source(&with_docs, "mcp://resources/guidelines/agent_usage");
    assert_eq!(s.path, Some("/data/docs/AGENT_GUIDELINES.md".to_string()));
    let s = resource_source(&ctx(), "mcp://resources/guidelines/effective_work");
    assert_eq!(s.path, Some("storage/../effective_work.md".to_string()));
    let s = resource_source(&ctx(), "mcp://resources/guidelines/agent_usage");
    assert_eq!(s.path, Some("storage/../docs/AGENT_GUIDELINES.md".to_string()));
    assert_eq!(s.fallback, "Agent guidelines not found");
    let s = resource_source(&ctx(), "mcp://projects/foo/raw");
    assert_eq!(s.path, Some("storage/foo/shared.json".to_string()));
    assert_eq!(s.fallback, "Graph not found or empty");
    let s = resource_source(&ctx(), "mcp://projects/mcp://projects/bar/raw/raw");
    assert_eq!(s.path, Some("storage/bar/shared.json".to_string()));
}

#[test]
fn resource_catalog_lists_projects() {
    let entries = resource_catalog(&vec!["dummy_project".to_string()]);
    assert_eq!(entries.len(), 4);
    assert_eq!(entries[0].uri, "mcp://resources/guidelines/effective_work");
    assert_eq!(entries[1].name, "Agent Memory Guidelines");
    assert_eq!(entries[2].uri, "mcp://projects/global/raw");
    assert_eq!(entries[3].uri, "mcp://projects/dummy_project/raw");
    assert_eq!(entries[3].name, "Project Graph: dummy_project");
    assert_eq!(entries[3].description, "Raw JSON of the dummy_project shared memory");
}

#[test]
fn batch_answers_each_answered_request_in_order() {
    let mut graph = MemoryGraph::new();
    let mut notification = request("notifications/initialized");
    notification.is_notification = true;
    let payload = RpcPayload::Batch(vec![request("tools/list"), request("invalid_method"), notification]);
    let out = process_payload(&mut graph, &payload, &ctx());
    assert_eq!(out.replies.len(), 2);
    assert_eq!(out.replies[0].0, 0);
    assert!(matches!(out.replies[0].1, Reply::Success(RpcResult::ToolCatalog(_))));
    assert_eq!(out.replies[1].0, 1);
    assert_eq!(failure_of(&out.replies[1].1).0, -32601);
    assert!(out.negotiated_version.is_none());
}

#[test]
fn batch_of_notifications_gets_nothing_and_keeps_last_version() {
    let mut graph = MemoryGraph::new();
    let mut a = request("initialize");
    a.is_notification = true;
    a.protocol_version = Some("2024-01-01".to_string());
    let mut b = request("initialize");
    b.is_notification = true;
    b.protocol_version = Some("bogus".to_string());
    let out = process_payload(&mut graph, &RpcPayload::Batch(vec![a, b]), &ctx());
    assert!(out.replies.is_empty());
    assert_eq!(out.negotiated_version, Some("2025-11-25".to_string()));
    let out = process_payload(&mut graph, &RpcPayload::Single(request("prompts/list")), &ctx());
    assert_eq!(out.replies.len(), 1);
    assert_eq!(out.replies[0].0, 0);
}

#[test]
fn tools_run_in_batch_order() {
    let mut graph = MemoryGraph::new();
    let mut create = no_args();
    create.create_entities = Some(CreateEntitiesParams { entities: vec![entity("A", "T", &[]), entity("B", "T", &[])] });
    let mut relate = no_args();
    relate.create_relations = Some(CreateRelationsParams {
        relations: vec![Relation { from: "A".to_string(), to: "B".to_string(), relation_type: "r".to_string() }],
    });
    let mut observe = no_args();
    observe.add_observations = Some(AddObservationsParams {
        observations: vec![ObservationEntry { entity_name: "A".to_string(), contents: vec!["seen".to_string()] }],
    });
    let mut search = no_args();
    search.search_nodes = Some(SearchNodesParams { query: "SEEN".to_string() });
    let payload = RpcPayload::Batch(vec![
        tool_request("create_entities", create),
        tool_request("create_relations", relate),
        tool_request("add_observations", observe),
        tool_request("search_nodes", search),
    ]);
    let out = process_payload(&mut graph, &payload, &ctx());
    assert_eq!(out.replies.len(), 4);
    assert_eq!(text_of(&out.replies[1].1), "Relations created successfully");
    assert_eq!(text_of(&out.replies[2].1), "Observations added successfully");
    match &out.replies[3].1 {
        Reply::Success(RpcResult::GraphDump(entities, relations)) => {
            assert_eq!(entities.len(), 1);
            assert_eq!(entities[0].name, "A");
            assert_eq!(relations.len(), 1);
        }
        _ => panic!("expected search results"),
    }
}

#[test]
fn open_delete_and_health_tools() {
    let mut graph = MemoryGraph::new();
    graph.create_entities(vec![entity("A", "T", &[]), entity("B", "T", &[])]);
    let mut open = no_args();
    open.open_nodes = Some(OpenNodesParams { names: vec!["B".to_string(), "Z".to_string()] });
    match run_tool(&mut graph, &CallToolParams { name: "open_nodes".to_string(), arguments: open }) {
        Some(RpcResult::EntityDump(es)) => {
            assert_eq!(es.len(), 1);
            assert_eq!(es[0].name, "B");
        }
        _ => panic!("expected entities"),
    }
    let mut delete = no_args();
    delete.delete_entities = Some(DeleteEntitiesParams { entity_names: vec!["A".to_string()] });
    match run_tool(&mut graph, &CallToolParams { name: "mcp_memory_delete_entities".to_string(), arguments: delete }) {
        Some(RpcResult::ToolText(t)) => assert_eq!(t, "Entities deleted successfully"),
        _ => panic!("expected a message"),
    }
    assert_eq!(graph.read_graph().0.len(), 1);
    match run_tool(&mut graph, &CallToolParams { name: "health_check".to_string(), arguments: no_args() }) {
        Some(RpcResult::HealthReport { status, errors }) => {
            assert_eq!(status, "healthy");
            assert!(errors.is_empty());
        }
        _ => panic!("expected a report"),
    }
}

#[test]
fn tools_list_offers_the_ten_tools_in_order() {
    let mut graph = MemoryGraph::new();
    let names: Vec<String> = match protocol_handle_request(&mut graph, &request("tools/list"), &ctx()).0 {
        Reply::Success(RpcResult::ToolCatalog(tools)) => tools.into_iter().map(|t| t.name).collect(),
        _ => panic!("expected the tool catalog"),
    };
    let expected = [
        "read_graph", "create_entities", "create_relations", "add_observations", "search_nodes",
        "open_nodes", "delete_entities", "delete_observations", "delete_relations", "health_check",
    ];
    assert_eq!(names.len(), 10);
    for (name, bare) in names.iter().zip(expected.iter()) {
        assert_eq!(name, &format!("mcp_memory_{}", bare));
    }
    let catalog = tool_catalog();
    assert_eq!(catalog[0].description, "Read the entire knowledge graph");
    assert_eq!(catalog[9].description, "Check the integrity of the knowledge graph");
    assert!(catalog[0].params.is_empty());
    assert!(catalog[9].params.is_empty());
    assert_eq!(catalog[1].params.len(), 1);
    assert_eq!(catalog[1].params[0].name, "entities");
    match &catalog[1].params[0].kind {
        ParamKind::RecordList(fields) => {
            let shape: Vec<(String, bool)> = fields.iter().map(|f| (f.name.clone(), f.is_list)).collect();
            assert_eq!(shape, vec![
                ("name".to_string(), false),
                ("entityType".to_string(), false),
                ("observations".to_string(), true),
            ]);
        }
        _ => panic!("expected a list of records"),
    }
    assert_eq!(catalog[4].params[0].name, "query");
    assert!(matches!(catalog[4].params[0].kind, ParamKind::Text));
    let names: Vec<&str> = catalog[7].params.iter().map(|p| p.name.as_str()).collect();
    assert_eq!(names, vec!["entityName", "observations"]);
    assert!(matches!(catalog[7].params[1].kind, ParamKind::TextList));
    assert!(graph.read_graph().0.is_empty());
}

#[test]
fn health_check_method_reports_the_graph() {
    let mut graph = MemoryGraph::new();
    graph.create_entities(vec![entity("A", "T", &["o"])]);
    graph.clear_dirty();
    for method in ["mcp_memory_health_check", "health_check"] {
        match protocol_handle_request(&mut graph, &request(method), &ctx()).0 {
            Reply::Success(RpcResult::HealthReport { status, errors }) => {
                assert_eq!(status, "healthy");
                assert!(errors.is_empty());
            }
            _ => panic!("expected a health report"),
        }
    }
    assert!(!graph.is_dirty());
    assert_eq!(graph.read_graph().0.len(), 1);
    let mut note = request("health_check");
    note.is_notification = true;
    assert!(matches!(protocol_handle_request(&mut graph, &note, &ctx()).0, Reply::Silent));
}
