use crate::graph::{
    after_add_observations, after_create_entities, after_create_relations,
    after_delete_entities, after_delete_observations, after_delete_relations,
    dangling_messages, graph_wf, lists_entities, lists_relations, lookup_entities, matching_entities, relations_touching,
    GraphView, MemoryGraph,
};
use crate::models::{
    clone_entities, clone_relations, clone_strings, entities_view, relations_view, strings_view,
    RelationView,
};
use crate::protocol::{
    CallToolParams, ObservationEntry, Reply, ResourceContext, ResourceEntry, ResourceSource,
    ParamKind, RecordField, RpcPayload, RpcRequest, RpcResult, ToolInfo, ToolParam,
};
use crate::graph_laws::{
    entities_created, entities_opened, lemma_add_observations_keeps_and_adds,
    lemma_create_entities_law, lemma_create_relations_law, lemma_open_law, lemma_without_exact,
    lemma_without_keeps_order, relations_created,
};
use crate::text::{
    concat, has_prefix, has_suffix, lowercase, owned, same_str, starts_with, ends_with,
    strip_leading, strip_trailing, trim_end_matches, trim_start_matches,
};
use vstd::prelude::*;

verus! {

/// The tools of the memory server.
pub enum Tool {
    ReadGraph,
    CreateEntities,
    CreateRelations,
    AddObservations,
    SearchNodes,
    OpenNodes,
    DeleteEntities,
    DeleteObservations,
    DeleteRelations,
    HealthCheck,
}

/// The tool that a name calls: each tool answers to its bare name and to the name
/// with the `mcp_memory_` prefix.
pub open spec fn tool_named(name: Seq<char>) -> Option<Tool> {
    if name == "mcp_memory_read_graph"@ || name == "read_graph"@ {
        Some(Tool::ReadGraph)
    } else if name == "mcp_memory_create_entities"@ || name == "create_entities"@ {
        Some(Tool::CreateEntities)
    } else if name == "mcp_memory_create_relations"@ || name == "create_relations"@ {
        Some(Tool::CreateRelations)
    } else if name == "mcp_memory_add_observations"@ || name == "add_observations"@ {
        Some(Tool::AddObservations)
    } else if name == "mcp_memory_search_nodes"@ || name == "search_nodes"@ {
        Some(Tool::SearchNodes)
    } else if name == "mcp_memory_open_nodes"@ || name == "open_nodes"@ {
        Some(Tool::OpenNodes)
    } else if name == "mcp_memory_delete_entities"@ || name == "delete_entities"@ {
        Some(Tool::DeleteEntities)
    } else if name == "mcp_memory_delete_observations"@ || name == "delete_observations"@ {
        Some(Tool::DeleteObservations)
    } else if name == "mcp_memory_delete_relations"@ || name == "delete_relations"@ {
        Some(Tool::DeleteRelations)
    } else if name == "mcp_memory_health_check"@ || name == "health_check"@ {
        Some(Tool::HealthCheck)
    } else {
        None
    }
}

/// The tool that `name` calls, if any (see `tool_named`).
pub fn tool_for_name(name: &str) -> (r: Option<Tool>)
    ensures
        r == tool_named(name@),
{
    if same_str(name, "mcp_memory_read_graph") || same_str(name, "read_graph") {
        Some(Tool::ReadGraph)
    } else if same_str(name, "mcp_memory_create_entities") || same_str(name, "create_entities") {
        Some(Tool::CreateEntities)
    } else if same_str(name, "mcp_memory_create_relations") || same_str(name, "create_relations") {
        Some(Tool::CreateRelations)
    } else if same_str(name, "mcp_memory_add_observations") || same_str(name, "add_observations") {
        Some(Tool::AddObservations)
    } else if same_str(name, "mcp_memory_search_nodes") || same_str(name, "search_nodes") {
        Some(Tool::SearchNodes)
    } else if same_str(name, "mcp_memory_open_nodes") || same_str(name, "open_nodes") {
        Some(Tool::OpenNodes)
    } else if same_str(name, "mcp_memory_delete_entities") || same_str(name, "delete_entities") {
        Some(Tool::DeleteEntities)
    } else if same_str(name, "mcp_memory_delete_observations") || same_str(
        name,
        "delete_observations",
    ) {
        Some(Tool::DeleteObservations)
    } else if same_str(name, "mcp_memory_delete_relations") || same_str(name, "delete_relations") {
        Some(Tool::DeleteRelations)
    } else if same_str(name, "mcp_memory_health_check") || same_str(name, "health_check") {
        Some(Tool::HealthCheck)
    } else {
        None
    }
}

/// Whether a tool call runs: the tool exists and its arguments fit it (the read-graph
/// and health-check tools take none).
pub open spec fn tool_accepted(call: CallToolParams) -> bool {
    match tool_named(call.name@) {
        None => false,
        Some(Tool::ReadGraph) => true,
        Some(Tool::HealthCheck) => true,
        Some(Tool::CreateEntities) => call.arguments.create_entities is Some,
        Some(Tool::CreateRelations) => call.arguments.create_relations is Some,
        Some(Tool::AddObservations) => call.arguments.add_observations is Some,
        Some(Tool::SearchNodes) => call.arguments.search_nodes is Some,
        Some(Tool::OpenNodes) => call.arguments.open_nodes is Some,
        Some(Tool::DeleteEntities) => call.arguments.delete_entities is Some,
        Some(Tool::DeleteObservations) => call.arguments.delete_observations is Some,
        Some(Tool::DeleteRelations) => call.arguments.delete_relations is Some,
    }
}

/// The graph after adding each entry's observations to its entity, first to last.
pub open spec fn add_all_observations(g: GraphView, entries: Seq<ObservationEntry>) -> GraphView
    decreases entries.len(),
{
    if entries.len() == 0 {
        g
    } else {
        let last = entries.last();
        after_add_observations(
            add_all_observations(g, entries.drop_last()),
            last.entity_name@,
            strings_view(last.contents@),
        )
    }
}

/// The graph after a tool call; a call that does not run leaves it as it was.
pub open spec fn apply_tool(g: GraphView, call: CallToolParams) -> GraphView {
    let a = call.arguments;
    if !tool_accepted(call) {
        g
    } else {
        match tool_named(call.name@) {
            Some(Tool::CreateEntities) => after_create_entities(
                g,
                entities_view(a.create_entities->0.entities@),
            ),
            Some(Tool::CreateRelations) => after_create_relations(
                g,
                relations_view(a.create_relations->0.relations@),
            ),
            Some(Tool::AddObservations) => add_all_observations(
                g,
                a.add_observations->0.observations@,
            ),
            Some(Tool::DeleteEntities) => after_delete_entities(
                g,
                strings_view(a.delete_entities->0.entity_names@),
            ),
            Some(Tool::DeleteObservations) => after_delete_observations(
                g,
                a.delete_observations->0.entity_name@,
                strings_view(a.delete_observations->0.observations@),
            ),
            Some(Tool::DeleteRelations) => after_delete_relations(
                g,
                relations_view(a.delete_relations->0.relations@),
            ),
            _ => g,
        }
    }
}

/// After adding observations: the same entities are stored, none loses an observation,
/// and every observation of every entry whose entity was stored is in that entity.
pub open spec fn observations_added(
    before: GraphView,
    after: GraphView,
    entries: Seq<ObservationEntry>,
) -> bool {
    &&& after.entities.dom() == before.entities.dom()
    &&& forall|n: Seq<char>, o: Seq<char>|
        before.entities.contains_key(n) && #[trigger] before.entities[n].observations.contains(o)
            ==> after.entities[n].observations.contains(o)
    &&& forall|j: int, k: int|
        0 <= j < entries.len() && before.entities.contains_key(entries[j].entity_name@) && 0 <= k
            < entries[j].contents@.len() ==> after.entities[entries[j].entity_name@].observations.contains(
            #[trigger] entries[j].contents@[k]@,
        )
}

/// After deleting the named entities: none of the names is stored, every other entity
/// is kept as it was, none appears, and no relation left has a deleted end.
pub open spec fn entities_deleted(before: GraphView, after: GraphView, names: Seq<Seq<char>>) -> bool {
    &&& forall|k: int| 0 <= k < names.len() ==> !after.entities.contains_key(#[trigger] names[k])
    &&& forall|n: Seq<char>|
        #[trigger] before.entities.contains_key(n) && !names.contains(n) ==> after.entities.contains_key(n)
            && after.entities[n] == before.entities[n]
    &&& forall|n: Seq<char>| #[trigger] after.entities.contains_key(n) ==> before.entities.contains_key(n)
    &&& forall|r: RelationView|
        #[trigger] after.relations.contains(r) ==> before.relations.contains(r) && !names.contains(r.0)
            && !names.contains(r.1)
}

/// After deleting observations of the entity `name`: when it is stored, it keeps in
/// their order exactly its observations that are not listed, so none of the listed ones
/// is left; nothing else changes.
pub open spec fn observations_deleted(
    before: GraphView,
    after: GraphView,
    name: Seq<char>,
    removals: Seq<Seq<char>>,
) -> bool {
    &&& after.entities.dom() == before.entities.dom()
    &&& after.relations == before.relations
    &&& forall|n: Seq<char>| #[trigger] before.entities.contains_key(n) && n != name ==> after.entities[n]
        == before.entities[n]
    &&& before.entities.contains_key(name) ==> {
        &&& after.entities[name].observations == before.entities[name].observations.filter(
            |o: Seq<char>| !removals.contains(o),
        )
        &&& forall|k: int|
            0 <= k < removals.len() ==> !after.entities[name].observations.contains(
                #[trigger] removals[k],
            )
        &&& after.entities[name].name == before.entities[name].name
        &&& after.entities[name].entity_type == before.entities[name].entity_type
    }
}

/// After deleting the listed relations: none of them is stored, every other relation is
/// kept, none appears, and the entities stay as they were.
pub open spec fn relations_deleted(before: GraphView, after: GraphView, listed: Seq<RelationView>) -> bool {
    &&& forall|k: int| 0 <= k < listed.len() ==> !after.relations.contains(#[trigger] listed[k])
    &&& forall|r: RelationView|
        #[trigger] before.relations.contains(r) && !listed.contains(r) ==> after.relations.contains(r)
    &&& forall|r: RelationView| #[trigger] after.relations.contains(r) ==> before.relations.contains(r)
    &&& after.entities == before.entities
}

/// Adding the observations of a list of entries, first to last, leaves every
/// observation of every entry in its entity, when that entity is stored.
pub proof fn lemma_add_all_observations_law(g: GraphView, entries: Seq<ObservationEntry>)
    ensures
        observations_added(g, add_all_observations(g, entries), entries),
    decreases entries.len(),
{
    let after = add_all_observations(g, entries);
    if entries.len() == 0 {
        assert(after.entities.dom() =~= g.entities.dom());
    } else {
        let init = entries.drop_last();
        let last = entries.last();
        lemma_add_all_observations_law(g, init);
        let prev = add_all_observations(g, init);
        let obs = strings_view(last.contents@);
        lemma_add_observations_keeps_and_adds(prev, last.entity_name@, obs);
        assert(after == after_add_observations(prev, last.entity_name@, obs));
        assert forall|n: Seq<char>, o: Seq<char>|
            g.entities.contains_key(n) && #[trigger] g.entities[n].observations.contains(o)
                implies after.entities[n].observations.contains(o) by {
            assert(prev.entities.contains_key(n));
            assert(prev.entities[n].observations.contains(o));
        }
        assert forall|j: int, k: int|
            0 <= j < entries.len() && g.entities.contains_key(entries[j].entity_name@) && 0 <= k
                < entries[j].contents@.len() implies after.entities[entries[j].entity_name@].observations.contains(
            #[trigger] entries[j].contents@[k]@,
        ) by {
            let nm = entries[j].entity_name@;
            assert(prev.entities.contains_key(nm));
            if j < entries.len() - 1 {
                assert(init[j] == entries[j]);
                assert(prev.entities[nm].observations.contains(init[j].contents@[k]@));
            } else {
                assert(obs[k] == last.contents@[k]@);
            }
        }
    }
}

/// Deleting entities removes every listed one and keeps every other.
pub proof fn lemma_delete_entities_law(g: GraphView, names: Seq<Seq<char>>)
    requires
        graph_wf(g),
    ensures
        entities_deleted(g, after_delete_entities(g, names), names),
{
    let a = after_delete_entities(g, names);
    assert forall|k: int| 0 <= k < names.len() implies !a.entities.contains_key(#[trigger] names[k]) by {
        assert(names.to_set().contains(names[k]));
    }
    assert forall|n: Seq<char>| #[trigger] g.entities.contains_key(n) && !names.contains(n) implies a.entities.contains_key(n)
        && a.entities[n] == g.entities[n] by {
        assert(!names.to_set().contains(n));
    }
    assert forall|r: RelationView| #[trigger] a.relations.contains(r) implies g.relations.contains(r)
        && !names.contains(r.0) && !names.contains(r.1) by {
        assert(g.entities.contains_key(r.0) && g.entities.contains_key(r.1));
        if names.contains(r.0) {
            assert(names.to_set().contains(r.0));
        }
        if names.contains(r.1) {
            assert(names.to_set().contains(r.1));
        }
    }
}

/// Deleting observations of an entity keeps, in order, exactly the unlisted ones.
pub proof fn lemma_delete_observations_law(g: GraphView, name: Seq<char>, removals: Seq<Seq<char>>)
    ensures
        observations_deleted(g, after_delete_observations(g, name, removals), name, removals),
{
    let a = after_delete_observations(g, name, removals);
    if g.entities.contains_key(name) {
        let e = g.entities[name];
        lemma_without_keeps_order(e.observations, removals);
        lemma_without_exact(e.observations, removals);
        assert(a.entities.dom() =~= g.entities.dom());
        assert forall|k: int| 0 <= k < removals.len() implies !a.entities[name].observations.contains(
            #[trigger] removals[k],
        ) by {
            assert(removals.contains(removals[k]));
        }
    }
}

/// Deleting relations removes every listed one and keeps every other.
pub proof fn lemma_delete_relations_law(g: GraphView, listed: Seq<RelationView>)
    ensures
        relations_deleted(g, after_delete_relations(g, listed), listed),
{
    let a = after_delete_relations(g, listed);
    assert forall|k: int| 0 <= k < listed.len() implies !a.relations.contains(#[trigger] listed[k]) by {
        assert(listed.to_set().contains(listed[k]));
    }
}

/// What each tool that changes the graph does, stated over its arguments: the
/// observations of every entry are added, every listed entity, observation or relation
/// is deleted, and everything not listed is kept.
pub proof fn lemma_tool_effects(g: GraphView, call: CallToolParams)
    requires
        graph_wf(g),
    ensures
        tool_named(call.name@) == Some(Tool::CreateEntities) && call.arguments.create_entities is Some
            ==> entities_created(
            g,
            apply_tool(g, call),
            entities_view(call.arguments.create_entities->0.entities@),
        ),
        tool_named(call.name@) == Some(Tool::CreateRelations) && call.arguments.create_relations is Some
            ==> relations_created(
            g,
            apply_tool(g, call),
            relations_view(call.arguments.create_relations->0.relations@),
        ),
        tool_named(call.name@) == Some(Tool::AddObservations) && call.arguments.add_observations is Some
            ==> observations_added(
            g,
            apply_tool(g, call),
            call.arguments.add_observations->0.observations@,
        ),
        tool_named(call.name@) == Some(Tool::DeleteEntities) && call.arguments.delete_entities is Some
            ==> entities_deleted(
            g,
            apply_tool(g, call),
            strings_view(call.arguments.delete_entities->0.entity_names@),
        ),
        tool_named(call.name@) == Some(Tool::DeleteObservations)
            && call.arguments.delete_observations is Some ==> observations_deleted(
            g,
            apply_tool(g, call),
            call.arguments.delete_observations->0.entity_name@,
            strings_view(call.arguments.delete_observations->0.observations@),
        ),
        tool_named(call.name@) == Some(Tool::DeleteRelations) && call.arguments.delete_relations is Some
            ==> relations_deleted(
            g,
            apply_tool(g, call),
            relations_view(call.arguments.delete_relations->0.relations@),
        ),
{
    let a = call.arguments;
    match tool_named(call.name@) {
        Some(Tool::CreateEntities) => {
            if a.create_entities is Some {
                lemma_create_entities_law(g, entities_view(a.create_entities->0.entities@));
            }
        },
        Some(Tool::CreateRelations) => {
            if a.create_relations is Some {
                lemma_create_relations_law(g, relations_view(a.create_relations->0.relations@));
            }
        },
        Some(Tool::AddObservations) => {
            if a.add_observations is Some {
                lemma_add_all_observations_law(g, a.add_observations->0.observations@);
            }
        },
        Some(Tool::DeleteEntities) => {
            if a.delete_entities is Some {
                lemma_delete_entities_law(g, strings_view(a.delete_entities->0.entity_names@));
            }
        },
        Some(Tool::DeleteObservations) => {
            if a.delete_observations is Some {
                lemma_delete_observations_law(
                    g,
                    a.delete_observations->0.entity_name@,
                    strings_view(a.delete_observations->0.observations@),
                );
            }
        },
        Some(Tool::DeleteRelations) => {
            if a.delete_relations is Some {
                lemma_delete_relations_law(g, relations_view(a.delete_relations->0.relations@));
            }
        },
        _ => {},
    }
}

/// Whether `res` is what a tool call that runs on the graph `g` answers: the listed
/// graph, the search hits, the opened entities, a healthy report, or the tool's message.
pub open spec fn tool_result_fits(g: GraphView, call: CallToolParams, res: RpcResult) -> bool {
    let a = call.arguments;
    match tool_named(call.name@) {
        Some(Tool::ReadGraph) => res matches RpcResult::GraphDump(es, rs) && lists_entities(
            g.entities,
            entities_view(es@),
        ) && lists_relations(g.relations, relations_view(rs@)),
        Some(Tool::SearchNodes) => {
            let hit = matching_entities(g.entities, lowercase(a.search_nodes->0.query@));
            res matches RpcResult::GraphDump(es, rs) && lists_entities(hit, entities_view(es@))
                && lists_relations(relations_touching(g.relations, hit.dom()), relations_view(rs@))
        },
        Some(Tool::OpenNodes) => res matches RpcResult::EntityDump(es) && entities_view(es@)
            == lookup_entities(g.entities, strings_view(a.open_nodes->0.names@)),
        Some(Tool::HealthCheck) => health_report_fits(g, res),
        Some(Tool::CreateEntities) => res matches RpcResult::ToolText(t) && t@
            == "Entities created successfully"@,
        Some(Tool::CreateRelations) => res matches RpcResult::ToolText(t) && t@
            == "Relations created successfully"@,
        Some(Tool::AddObservations) => res matches RpcResult::ToolText(t) && t@
            == "Observations added successfully"@,
        Some(Tool::DeleteEntities) => res matches RpcResult::ToolText(t) && t@
            == "Entities deleted successfully"@,
        Some(Tool::DeleteObservations) => res matches RpcResult::ToolText(t) && t@
            == "Observations deleted successfully"@,
        Some(Tool::DeleteRelations) => res matches RpcResult::ToolText(t) && t@
            == "Relations deleted successfully"@,
        None => false,
    }
}

/// What a tool parameter takes, as a value: a string, a list of strings, or a list of
/// records whose fields are named, each a string (`false`) or a list of strings (`true`).
pub enum ParamShape {
    Text,
    TextList,
    RecordList(Seq<(Seq<char>, bool)>),
}

/// The fields of a record, by name and whether each is a list.
pub open spec fn record_fields_view(fs: Seq<RecordField>) -> Seq<(Seq<char>, bool)> {
    fs.map_values(|f: RecordField| (f.name@, f.is_list))
}

/// What a parameter takes.
pub open spec fn param_shape(k: ParamKind) -> ParamShape {
    match k {
        ParamKind::Text => ParamShape::Text,
        ParamKind::TextList => ParamShape::TextList,
        ParamKind::RecordList(fs) => ParamShape::RecordList(record_fields_view(fs@)),
    }
}

/// The parameters of a tool, by name and shape.
pub open spec fn params_view(ps: Seq<ToolParam>) -> Seq<(Seq<char>, ParamShape)> {
    ps.map_values(|p: ToolParam| (p.name@, param_shape(p.kind)))
}

/// A tool as offered: its name, its description and its parameters.
pub open spec fn tool_info_view(t: ToolInfo) -> (Seq<char>, Seq<char>, Seq<(Seq<char>, ParamShape)>) {
    (t.name@, t.description@, params_view(t.params@))
}

/// The fields of an entity record.
pub open spec fn entity_record() -> Seq<(Seq<char>, bool)> {
    seq![("name"@, false), ("entityType"@, false), ("observations"@, true)]
}

/// The fields of a relation record.
pub open spec fn relation_record() -> Seq<(Seq<char>, bool)> {
    seq![("from"@, false), ("to"@, false), ("relationType"@, false)]
}

/// The fields of a record of observations to add.
pub open spec fn observation_record() -> Seq<(Seq<char>, bool)> {
    seq![("entityName"@, false), ("contents"@, true)]
}

/// The tools offered by `tools/list`, in order, each with its description and the
/// parameters of its input.
pub open spec fn tool_catalog_view() -> Seq<(Seq<char>, Seq<char>, Seq<(Seq<char>, ParamShape)>)> {
    seq![
        ("mcp_memory_read_graph"@, "Read the entire knowledge graph"@, seq![]),
        (
            "mcp_memory_create_entities"@,
            "Create multiple new entities in the knowledge graph"@,
            seq![("entities"@, ParamShape::RecordList(entity_record()))],
        ),
        (
            "mcp_memory_create_relations"@,
            "Create multiple new relations between entities"@,
            seq![("relations"@, ParamShape::RecordList(relation_record()))],
        ),
        (
            "mcp_memory_add_observations"@,
            "Add new observations to existing entities"@,
            seq![("observations"@, ParamShape::RecordList(observation_record()))],
        ),
        (
            "mcp_memory_search_nodes"@,
            "Search for nodes in the knowledge graph based on a query"@,
            seq![("query"@, ParamShape::Text)],
        ),
        (
            "mcp_memory_open_nodes"@,
            "Open specific nodes in the knowledge graph by their names"@,
            seq![("names"@, ParamShape::TextList)],
        ),
        (
            "mcp_memory_delete_entities"@,
            "Delete multiple entities and their associated relations"@,
            seq![("entityNames"@, ParamShape::TextList)],
        ),
        (
            "mcp_memory_delete_observations"@,
            "Delete specific observations from entities"@,
            seq![("entityName"@, ParamShape::Text), ("observations"@, ParamShape::TextList)],
        ),
        (
            "mcp_memory_delete_relations"@,
            "Delete multiple relations from the knowledge graph"@,
            seq![("relations"@, ParamShape::RecordList(relation_record()))],
        ),
        ("mcp_memory_health_check"@, "Check the integrity of the knowledge graph"@, seq![]),
    ]
}

/// Whether the list `ts` is the tool catalog.
pub open spec fn is_tool_catalog(ts: Seq<ToolInfo>) -> bool {
    ts.map_values(|t: ToolInfo| tool_info_view(t)) == tool_catalog_view()
}

/// A record field.
fn record_field(name: &str, is_list: bool) -> (r: RecordField)
    ensures
        (r.name@, r.is_list) == (name@, is_list),
{
    RecordField { name: owned(name), is_list }
}

/// The fields of a record: a string, a string, then a third field.
fn three_fields(a: &str, b: &str, c: &str, c_is_list: bool) -> (r: Vec<RecordField>)
    ensures
        record_fields_view(r@) == seq![(a@, false), (b@, false), (c@, c_is_list)],
{
    let mut r: Vec<RecordField> = Vec::new();
    r.push(record_field(a, false));
    r.push(record_field(b, false));
    r.push(record_field(c, c_is_list));
    proof {
        assert(record_fields_view(r@) =~= seq![(a@, false), (b@, false), (c@, c_is_list)]);
    }
    r
}

/// A parameter.
fn param(name: &str, kind: ParamKind) -> (r: ToolParam)
    ensures
        (r.name@, param_shape(r.kind)) == (name@, param_shape(kind)),
{
    ToolParam { name: owned(name), kind }
}

/// A tool with its name, description and parameters.
fn tool_info(name: &str, description: &str, params: Vec<ToolParam>) -> (r: ToolInfo)
    ensures
        tool_info_view(r) == (name@, description@, params_view(params@)),
{
    ToolInfo { name: owned(name), description: owned(description), params }
}

/// A tool with no parameters.
fn tool_without_params(name: &str, description: &str) -> (r: ToolInfo)
    ensures
        tool_info_view(r) == (name@, description@, Seq::<(Seq<char>, ParamShape)>::empty()),
{
    let params: Vec<ToolParam> = Vec::new();
    proof {
        assert(params_view(params@) =~= Seq::<(Seq<char>, ParamShape)>::empty());
    }
    tool_info(name, description, params)
}

/// A tool with one parameter.
fn tool_with_param(name: &str, description: &str, p: ToolParam) -> (r: ToolInfo)
    ensures
        tool_info_view(r) == (name@, description@, seq![(p.name@, param_shape(p.kind))]),
{
    let ghost pv = (p.name@, param_shape(p.kind));
    let mut params: Vec<ToolParam> = Vec::new();
    params.push(p);
    proof {
        assert(params_view(params@) =~= seq![pv]);
    }
    tool_info(name, description, params)
}

/// The tools that the server offers, in the order in which `tools/list` gives them,
/// with the parameters of each.
pub fn tool_catalog() -> (r: Vec<ToolInfo>)
    ensures
        is_tool_catalog(r@),
{
    let mut r: Vec<ToolInfo> = Vec::new();
    r.push(tool_without_params("mcp_memory_read_graph", "Read the entire knowledge graph"));
    let entity_fields = three_fields("name", "entityType", "observations", true);
    r.push(
        tool_with_param(
            "mcp_memory_create_entities",
            "Create multiple new entities in the knowledge graph",
            param("entities", ParamKind::RecordList(entity_fields)),
        ),
    );
    let relation_fields = three_fields("from", "to", "relationType", false);
    r.push(
        tool_with_param(
            "mcp_memory_create_relations",
            "Create multiple new relations between entities",
            param("relations", ParamKind::RecordList(relation_fields)),
        ),
    );
    let mut observation_fields: Vec<RecordField> = Vec::new();
    observation_fields.push(record_field("entityName", false));
    observation_fields.push(record_field("contents", true));
    proof {
        assert(record_fields_view(observation_fields@) =~= observation_record());
    }
    r.push(
        tool_with_param(
            "mcp_memory_add_observations",
            "Add new observations to existing entities",
            param("observations", ParamKind::RecordList(observation_fields)),
        ),
    );
    r.push(
        tool_with_param(
            "mcp_memory_search_nodes",
            "Search for nodes in the knowledge graph based on a query",
            param("query", ParamKind::Text),
        ),
    );
    r.push(
        tool_with_param(
            "mcp_memory_open_nodes",
            "Open specific nodes in the knowledge graph by their names",
            param("names", ParamKind::TextList),
        ),
    );
    r.push(
        tool_with_param(
            "mcp_memory_delete_entities",
            "Delete multiple entities and their associated relations",
            param("entityNames", ParamKind::TextList),
        ),
    );
    let mut deletion_params: Vec<ToolParam> = Vec::new();
    deletion_params.push(param("entityName", ParamKind::Text));
    deletion_params.push(param("observations", ParamKind::TextList));
    proof {
        assert(params_view(deletion_params@) =~= seq![
            ("entityName"@, ParamShape::Text),
            ("observations"@, ParamShape::TextList),
        ]);
    }
    r.push(
        tool_info(
            "mcp_memory_delete_observations",
            "Delete specific observations from entities",
            deletion_params,
        ),
    );
    let deleted_relation_fields = three_fields("from", "to", "relationType", false);
    r.push(
        tool_with_param(
            "mcp_memory_delete_relations",
            "Delete multiple relations from the knowledge graph",
            param("relations", ParamKind::RecordList(deleted_relation_fields)),
        ),
    );
    r.push(
        tool_without_params("mcp_memory_health_check", "Check the integrity of the knowledge graph"),
    );
    proof {
        assert(r@.map_values(|t: ToolInfo| tool_info_view(t)) =~= tool_catalog_view());
    }
    r
}

/// Whether `res` is the health report on the graph `g`: its problems are the messages
/// for the relations' missing ends (the relations taken in some order), its status is
/// `healthy` exactly when there are none, and on a well-formed graph there are none.
pub open spec fn health_report_fits(g: GraphView, res: RpcResult) -> bool {
    match res {
        RpcResult::HealthReport { status, errors } => {
            &&& exists|rs: Seq<RelationView>|
                lists_relations(g.relations, rs) && strings_view(errors@)
                    == #[trigger] dangling_messages(g.entities, rs)
            &&& status@ == (if errors@.len() == 0 { "healthy"@ } else { "unhealthy"@ })
            &&& graph_wf(g) ==> errors@.len() == 0
        },
        _ => false,
    }
}

/// Checks the graph and reports what it found.
fn health_report(graph: &MemoryGraph) -> (r: RpcResult)
    requires
        graph.wf(),
    ensures
        health_report_fits(graph@, r),
{
    let errors = graph.validate_graph();
    let status = if errors.len() == 0 {
        owned("healthy")
    } else {
        owned("unhealthy")
    };
    RpcResult::HealthReport { status, errors }
}

/// Adds each entry's observations to its entity, first to last.
fn add_observation_entries(graph: &mut MemoryGraph, entries: &Vec<ObservationEntry>)
    requires
        old(graph).wf(),
    ensures
        final(graph).wf(),
        final(graph)@ == add_all_observations(old(graph)@, entries@),
{
    for i in 0..entries.len()
        invariant
            graph.wf(),
            graph@ == add_all_observations(old(graph)@, entries@.take(i as int)),
    {
        proof {
            assert(entries@.take(i + 1).drop_last() =~= entries@.take(i as int));
            assert(entries@.take(i + 1).last() == entries@[i as int]);
        }
        let entry = &entries[i];
        graph.add_observations(entry.entity_name.as_str(), clone_strings(&entry.contents));
    }
    proof {
        assert(entries@.take(entries@.len() as int) =~= entries@);
    }
}

/// Runs a tool call on the graph. A call that runs changes the graph as its tool does
/// and gives the tool's result; any other call changes nothing and gives nothing.
pub fn run_tool(graph: &mut MemoryGraph, call: &CallToolParams) -> (r: Option<RpcResult>)
    requires
        old(graph).wf(),
    ensures
        final(graph).wf(),
        final(graph)@ == apply_tool(old(graph)@, *call),
        tool_named(call.name@) == Some(Tool::CreateEntities) && call.arguments.create_entities is Some
            ==> entities_created(
            old(graph)@,
            final(graph)@,
            entities_view(call.arguments.create_entities->0.entities@),
        ),
        tool_named(call.name@) == Some(Tool::CreateRelations) && call.arguments.create_relations is Some
            ==> relations_created(
            old(graph)@,
            final(graph)@,
            relations_view(call.arguments.create_relations->0.relations@),
        ),
        tool_named(call.name@) == Some(Tool::OpenNodes) && call.arguments.open_nodes is Some ==> (
        r matches Some(RpcResult::EntityDump(es)) && entities_opened(
            old(graph)@.entities,
            strings_view(call.arguments.open_nodes->0.names@),
            entities_view(es@),
        )),
        tool_named(call.name@) == Some(Tool::AddObservations) && call.arguments.add_observations is Some
            ==> observations_added(
            old(graph)@,
            final(graph)@,
            call.arguments.add_observations->0.observations@,
        ),
        tool_named(call.name@) == Some(Tool::DeleteEntities) && call.arguments.delete_entities is Some
            ==> entities_deleted(
            old(graph)@,
            final(graph)@,
            strings_view(call.arguments.delete_entities->0.entity_names@),
        ),
        tool_named(call.name@) == Some(Tool::DeleteObservations)
            && call.arguments.delete_observations is Some ==> observations_deleted(
            old(graph)@,
            final(graph)@,
            call.arguments.delete_observations->0.entity_name@,
            strings_view(call.arguments.delete_observations->0.observations@),
        ),
        tool_named(call.name@) == Some(Tool::DeleteRelations) && call.arguments.delete_relations is Some
            ==> relations_deleted(
            old(graph)@,
            final(graph)@,
            relations_view(call.arguments.delete_relations->0.relations@),
        ),
        r is Some == tool_accepted(*call),
        r matches Some(res) ==> tool_result_fits(old(graph)@, *call, res),
{
    proof {
        lemma_tool_effects(old(graph)@, *call);
        if call.arguments.open_nodes is Some {
            lemma_open_law(old(graph)@.entities, strings_view(call.arguments.open_nodes->0.names@));
        }
    }
    let a = &call.arguments;
    match tool_for_name(call.name.as_str()) {
        None => None,
        Some(Tool::ReadGraph) => {
            let (entities, relations) = graph.read_graph();
            Some(RpcResult::GraphDump(entities, relations))
        },
        Some(Tool::CreateEntities) => match &a.create_entities {
            Some(p) => {
                graph.create_entities(clone_entities(&p.entities));
                Some(RpcResult::ToolText(owned("Entities created successfully")))
            },
            None => None,
        },
        Some(Tool::CreateRelations) => match &a.create_relations {
            Some(p) => {
                graph.create_relations(clone_relations(&p.relations));
                Some(RpcResult::ToolText(owned("Relations created successfully")))
            },
            None => None,
        },
        Some(Tool::AddObservations) => match &a.add_observations {
            Some(p) => {
                add_observation_entries(graph, &p.observations);
                Some(RpcResult::ToolText(owned("Observations added successfully")))
            },
            None => None,
        },
        Some(Tool::SearchNodes) => match &a.search_nodes {
            Some(p) => {
                let (entities, relations) = graph.search_nodes(p.query.as_str());
                Some(RpcResult::GraphDump(entities, relations))
            },
            None => None,
        },
        Some(Tool::OpenNodes) => match &a.open_nodes {
            Some(p) => {
                let entities = graph.get_entities(clone_strings(&p.names));
                Some(RpcResult::EntityDump(entities))
            },
            None => None,
        },
        Some(Tool::DeleteEntities) => match &a.delete_entities {
            Some(p) => {
                graph.delete_entities(clone_strings(&p.entity_names));
                Some(RpcResult::ToolText(owned("Entities deleted successfully")))
            },
            None => None,
        },
        Some(Tool::DeleteObservations) => match &a.delete_observations {
            Some(p) => {
                graph.delete_observations(p.entity_name.as_str(), clone_strings(&p.observations));
                Some(RpcResult::ToolText(owned("Observations deleted successfully")))
            },
            None => None,
        },
        Some(Tool::DeleteRelations) => match &a.delete_relations {
            Some(p) => {
                graph.delete_relations(clone_relations(&p.relations));
                Some(RpcResult::ToolText(owned("Relations deleted successfully")))
            },
            None => None,
        },
        Some(Tool::HealthCheck) => Some(health_report(graph)),
    }
}

/// The view of an optional string.
pub open spec fn opt_view(o: Option<String>) -> Option<Seq<char>> {
    match o {
        Some(s) => Some(s@),
        None => None,
    }
}

/// The protocol version agreed on with a client that asks for `client` (or for nothing,
/// which counts as `2024-11-05`): any `2024-` version, or `2025-11-25`, is kept;
/// any other gives `2025-11-25`.
pub open spec fn negotiated_version(client: Option<Seq<char>>) -> Seq<char> {
    let asked = match client {
        Some(v) => v,
        None => "2024-11-05"@,
    };
    if has_prefix(asked, "2024-"@) || asked == "2025-11-25"@ {
        asked
    } else {
        "2025-11-25"@
    }
}

/// The protocol version agreed on with a client (see `negotiated_version`).
pub fn negotiate_version(client: &Option<String>) -> (r: String)
    ensures
        r@ == negotiated_version(opt_view(*client)),
{
    let asked: &str = match client {
        Some(v) => v.as_str(),
        None => "2024-11-05",
    };
    if starts_with(asked, "2024-") || same_str(asked, "2025-11-25") {
        owned(asked)
    } else {
        owned("2025-11-25")
    }
}

/// The name of the project whose graph a `mcp://projects/{name}/raw` URI reads.
pub open spec fn project_of_uri(uri: Seq<char>) -> Seq<char> {
    strip_trailing(strip_leading(uri, "mcp://projects/"@), "/raw"@)
}

/// The file that holds the resource at `uri`, if there is one: a guideline document
/// (in the documents folder when one is set, else beside the storage root), or the
/// shared graph of a project.
pub open spec fn resource_path(ctx: ResourceContext, uri: Seq<char>) -> Option<Seq<char>> {
    if uri == "mcp://resources/guidelines/effective_work"@ {
        Some(
            match ctx.docs_dir {
                Some(d) => d@ + "/effective_work.md"@,
                None => ctx.storage_root@ + "/../effective_work.md"@,
            },
        )
    } else if uri == "mcp://resources/guidelines/agent_usage"@ {
        Some(
            match ctx.docs_dir {
                Some(d) => d@ + "/AGENT_GUIDELINES.md"@,
                None => ctx.storage_root@ + "/../docs/AGENT_GUIDELINES.md"@,
            },
        )
    } else if has_prefix(uri, "mcp://projects/"@) && has_suffix(uri, "/raw"@) {
        Some(ctx.storage_root@ + "/"@ + project_of_uri(uri) + "/shared.json"@)
    } else {
        None
    }
}

/// The text given for the resource at `uri` when its file cannot be read.
pub open spec fn resource_fallback(uri: Seq<char>) -> Seq<char> {
    if uri == "mcp://resources/guidelines/effective_work"@ {
        "Effective work policy not found"@
    } else if uri == "mcp://resources/guidelines/agent_usage"@ {
        "Agent guidelines not found"@
    } else if has_prefix(uri, "mcp://projects/"@) && has_suffix(uri, "/raw"@) {
        "Graph not found or empty"@
    } else {
        "Resource not found"@
    }
}

/// Where the text of the resource at `uri` comes from.
pub fn resource_source(ctx: &ResourceContext, uri: &str) -> (r: ResourceSource)
    ensures
        opt_view(r.path) == resource_path(*ctx, uri@),
        r.fallback@ == resource_fallback(uri@),
{
    if same_str(uri, "mcp://resources/guidelines/effective_work") {
        let path = match &ctx.docs_dir {
            Some(d) => concat(d.as_str(), "/effective_work.md"),
            None => concat(ctx.storage_root.as_str(), "/../effective_work.md"),
        };
        ResourceSource { path: Some(path), fallback: owned("Effective work policy not found") }
    } else if same_str(uri, "mcp://resources/guidelines/agent_usage") {
        let path = match &ctx.docs_dir {
            Some(d) => concat(d.as_str(), "/AGENT_GUIDELINES.md"),
            None => concat(ctx.storage_root.as_str(), "/../docs/AGENT_GUIDELINES.md"),
        };
        ResourceSource { path: Some(path), fallback: owned("Agent guidelines not found") }
    } else if starts_with(uri, "mcp://projects/") && ends_with(uri, "/raw") {
        let inner = trim_start_matches(uri, "mcp://projects/");
        let project = trim_end_matches(inner.as_str(), "/raw");
        let dir = concat(ctx.storage_root.as_str(), "/");
        let with_project = concat(dir.as_str(), project.as_str());
        let path = concat(with_project.as_str(), "/shared.json");
        ResourceSource { path: Some(path), fallback: owned("Graph not found or empty") }
    } else {
        ResourceSource { path: None, fallback: owned("Resource not found") }
    }
}

/// The view of a listed resource: its URI, name and description.
pub open spec fn entry_view(e: ResourceEntry) -> (Seq<char>, Seq<char>, Seq<char>) {
    (e.uri@, e.name@, e.description@)
}

/// The resources that are always listed, in order.
pub open spec fn fixed_resources() -> Seq<(Seq<char>, Seq<char>, Seq<char>)> {
    seq![
        (
            "mcp://resources/guidelines/effective_work"@,
            "Effective Work Policy"@,
            "Rules for working effectively in this project"@,
        ),
        (
            "mcp://resources/guidelines/agent_usage"@,
            "Agent Memory Guidelines"@,
            "Instructions for using the memory graph"@,
        ),
        (
            "mcp://projects/global/raw"@,
            "Global Knowledge Graph"@,
            "Raw JSON of the global shared memory"@,
        ),
    ]
}

/// The listed resource of a project's shared graph.
pub open spec fn project_resource(name: Seq<char>) -> (Seq<char>, Seq<char>, Seq<char>) {
    (
        "mcp://projects/"@ + name + "/raw"@,
        "Project Graph: "@ + name,
        "Raw JSON of the "@ + name + " shared memory"@,
    )
}

/// Builds a listed resource.
fn make_entry(uri: String, name: String, description: String) -> (r: ResourceEntry)
    ensures
        entry_view(r) == (uri@, name@, description@),
{
    ResourceEntry { uri, name, description }
}

/// The list of resources: the fixed ones, then one per project folder, in the order given.
pub fn resource_catalog(projects: &Vec<String>) -> (r: Vec<ResourceEntry>)
    ensures
        r@.len() == 3 + projects@.len(),
        forall|i: int| 0 <= i < 3 ==> entry_view(#[trigger] r@[i]) == fixed_resources()[i],
        forall|i: int|
            0 <= i < projects@.len() ==> entry_view(#[trigger] r@[3 + i]) == project_resource(
                projects@[i]@,
            ),
{
    let mut r: Vec<ResourceEntry> = Vec::new();
    r.push(
        make_entry(
            owned("mcp://resources/guidelines/effective_work"),
            owned("Effective Work Policy"),
            owned("Rules for working effectively in this project"),
        ),
    );
    r.push(
        make_entry(
            owned("mcp://resources/guidelines/agent_usage"),
            owned("Agent Memory Guidelines"),
            owned("Instructions for using the memory graph"),
        ),
    );
    r.push(
        make_entry(
            owned("mcp://projects/global/raw"),
            owned("Global Knowledge Graph"),
            owned("Raw JSON of the global shared memory"),
        ),
    );
    for i in 0..projects.len()
        invariant
            r@.len() == 3 + i,
            forall|k: int| 0 <= k < 3 ==> entry_view(#[trigger] r@[k]) == fixed_resources()[k],
            forall|k: int|
                0 <= k < i ==> entry_view(#[trigger] r@[3 + k]) == project_resource(
                    projects@[k]@,
                ),
    {
        let name = projects[i].as_str();
        let head = concat("mcp://projects/", name);
        let uri = concat(head.as_str(), "/raw");
        let title = concat("Project Graph: ", name);
        let lead = concat("Raw JSON of the ", name);
        let description = concat(lead.as_str(), " shared memory");
        r.push(make_entry(uri, title, description));
    }
    r
}

/// Whether a request is answered: it has an id, and it is not the client's
/// `notifications/initialized`.
pub open spec fn speaks(req: RpcRequest) -> bool {
    !req.is_notification && req.method@ != "notifications/initialized"@
}

/// Whether `reply` is an error with `code` and `message`.
pub open spec fn is_failure(reply: Reply, code: int, message: Seq<char>) -> bool {
    reply matches Reply::Failure { code: c, message: m } && c == code && m@ == message
}

/// The graph after a request: only a tool call that runs changes it.
pub open spec fn apply_request(g: GraphView, req: RpcRequest) -> GraphView {
    if req.method@ == "tools/call"@ && req.tool_call is Some {
        apply_tool(g, req.tool_call->0)
    } else {
        g
    }
}

/// Whether `reply` is what the request is answered on the graph `g`. A request that is
/// not answered gets no reply. A tool call that runs gets its tool's result, any other
/// tool call an invalid-parameters error; `initialize` gets the agreed version; a
/// resource read gets the resource's source, or an error when the URI is missing;
/// the lists get their results; any other method a method-not-found error.
pub open spec fn reply_fits(g: GraphView, req: RpcRequest, ctx: ResourceContext, reply: Reply) -> bool {
    let m = req.method@;
    if !speaks(req) {
        reply is Silent
    } else if m == "tools/call"@ {
        if req.tool_call is Some && tool_accepted(req.tool_call->0) {
            reply matches Reply::Success(res) && tool_result_fits(g, req.tool_call->0, res)
        } else {
            is_failure(reply, -32602, "Invalid tool call params"@)
        }
    } else if m == "initialize"@ {
        reply matches Reply::Success(RpcResult::Initialized(v)) && v@ == negotiated_version(
            opt_view(req.protocol_version),
        )
    } else if m == "tools/list"@ || m == "list_tools"@ {
        reply matches Reply::Success(RpcResult::ToolCatalog(ts)) && is_tool_catalog(ts@)
    } else if m == "resources/list"@ {
        reply matches Reply::Success(RpcResult::ResourceCatalog)
    } else if m == "resources/read"@ {
        if !req.has_params {
            is_failure(reply, -32602, "Missing parameters"@)
        } else if req.uri is None {
            is_failure(reply, -32602, "Missing uri parameter"@)
        } else {
            reply matches Reply::Success(RpcResult::ResourceContents { uri, source }) && uri@
                == req.uri->0@ && opt_view(source.path) == resource_path(ctx, req.uri->0@)
                && source.fallback@ == resource_fallback(req.uri->0@)
        }
    } else if m == "resources/templates/list"@ {
        reply matches Reply::Success(RpcResult::ResourceTemplates)
    } else if m == "prompts/list"@ {
        reply matches Reply::Success(RpcResult::PromptCatalog)
    } else if m == "mcp_memory_health_check"@ || m == "health_check"@ {
        reply matches Reply::Success(res) && health_report_fits(g, res)
    } else {
        is_failure(reply, -32601, "Method not found"@)
    }
}

/// A failure with `code` and `message`, or no reply for a request that is not answered.
fn failure_unless_silent(req: &RpcRequest, code: i32, message: &str) -> (r: Reply)
    ensures
        !req.is_notification ==> is_failure(r, code as int, message@),
        req.is_notification ==> r is Silent,
{
    if req.is_notification {
        Reply::Silent
    } else {
        Reply::Failure { code, message: owned(message) }
    }
}

/// A success with `res`, or no reply for a request that is not answered.
fn success_unless_silent(req: &RpcRequest, res: RpcResult) -> (r: Reply)
    ensures
        !req.is_notification ==> r == Reply::Success(res),
        req.is_notification ==> r is Silent,
{
    if req.is_notification {
        Reply::Silent
    } else {
        Reply::Success(res)
    }
}

/// Handles one request on the graph. Tool calls change the graph as `apply_request`
/// says, and the reply is as `reply_fits` says. For `initialize`, the agreed version is
/// also returned, to be kept for the session (a notification included).
pub fn protocol_handle_request(
    graph: &mut MemoryGraph,
    req: &RpcRequest,
    ctx: &ResourceContext,
) -> (r: (Reply, Option<String>))
    requires
        old(graph).wf(),
    ensures
        final(graph).wf(),
        final(graph)@ == apply_request(old(graph)@, *req),
        reply_fits(old(graph)@, *req, *ctx, r.0),
        req.method@ == "initialize"@ ==> opt_view(r.1) == Some(
            negotiated_version(opt_view(req.protocol_version)),
        ),
        req.method@ != "initialize"@ ==> r.1 is None,
{
    let method = req.method.as_str();
    proof {
        reveal_strlit("notifications/initialized");
        reveal_strlit("tools/call");
        reveal_strlit("initialize");
        assert("notifications/initialized"@.len() != "tools/call"@.len());
        assert("notifications/initialized"@.len() != "initialize"@.len());
        assert("tools/call"@[0] != "initialize"@[0]);
    }
    if same_str(method, "tools/call") {
        match &req.tool_call {
            Some(call) => {
                let result = run_tool(graph, call);
                match result {
                    Some(res) => {
                        return (success_unless_silent(req, res), None);
                    },
                    None => {},
                }
            },
            None => {},
        }
        return (failure_unless_silent(req, -32602, "Invalid tool call params"), None);
    }
    if same_str(method, "initialize") {
        let version = negotiate_version(&req.protocol_version);
        let reply = success_unless_silent(req, RpcResult::Initialized(version.clone()));
        return (reply, Some(version));
    }
    if same_str(method, "notifications/initialized") {
        return (Reply::Silent, None);
    }
    let reply = if same_str(method, "tools/list") || same_str(method, "list_tools") {
        success_unless_silent(req, RpcResult::ToolCatalog(tool_catalog()))
    } else if same_str(method, "resources/list") {
        success_unless_silent(req, RpcResult::ResourceCatalog)
    } else if same_str(method, "resources/read") {
        if !req.has_params {
            failure_unless_silent(req, -32602, "Missing parameters")
        } else {
            match &req.uri {
                Some(uri) => {
                    let source = resource_source(ctx, uri.as_str());
                    success_unless_silent(
                        req,
                        RpcResult::ResourceContents { uri: uri.clone(), source },
                    )
                },
                None => failure_unless_silent(req, -32602, "Missing uri parameter"),
            }
        }
    } else if same_str(method, "resources/templates/list") {
        success_unless_silent(req, RpcResult::ResourceTemplates)
    } else if same_str(method, "prompts/list") {
        success_unless_silent(req, RpcResult::PromptCatalog)
    } else if same_str(method, "mcp_memory_health_check") || same_str(method, "health_check") {
        success_unless_silent(req, health_report(graph))
    } else {
        failure_unless_silent(req, -32601, "Method not found")
    };
    (reply, None)
}

/// The graph after the requests, handled first to last.
pub open spec fn apply_requests(g: GraphView, reqs: Seq<RpcRequest>) -> GraphView
    decreases reqs.len(),
{
    if reqs.len() == 0 {
        g
    } else {
        apply_request(apply_requests(g, reqs.drop_last()), reqs.last())
    }
}

/// The positions of the requests that are answered, in order.
pub open spec fn speaking_indices(reqs: Seq<RpcRequest>) -> Seq<int>
    decreases reqs.len(),
{
    if reqs.len() == 0 {
        Seq::empty()
    } else {
        let prev = speaking_indices(reqs.drop_last());
        if speaks(reqs.last()) {
            prev.push(reqs.len() - 1)
        } else {
            prev
        }
    }
}

/// The version agreed on by the last `initialize` among the requests, if any.
pub open spec fn last_negotiated(reqs: Seq<RpcRequest>) -> Option<Seq<char>>
    decreases reqs.len(),
{
    if reqs.len() == 0 {
        None
    } else if reqs.last().method@ == "initialize"@ {
        Some(negotiated_version(opt_view(reqs.last().protocol_version)))
    } else {
        last_negotiated(reqs.drop_last())
    }
}

/// The requests of a payload, in order.
pub open spec fn payload_requests(p: RpcPayload) -> Seq<RpcRequest> {
    match p {
        RpcPayload::Single(r) => seq![r],
        RpcPayload::Batch(v) => v@,
    }
}

/// The positions of a list of numbered replies.
pub open spec fn reply_positions(replies: Seq<(usize, Reply)>) -> Seq<int> {
    replies.map_values(|x: (usize, Reply)| x.0 as int)
}

/// What a payload is answered: the replies of the answered requests, each with the
/// position of its request, and the version agreed on by the last `initialize`.
pub struct PayloadOutcome {
    pub replies: Vec<(usize, Reply)>,
    pub negotiated_version: Option<String>,
}

/// Whether `r` is what a payload handled on the graph `g` is answered: one reply per
/// answered request, in order, each fitting the request on the graph as the requests
/// before it left it, and the version of the last `initialize`.
pub open spec fn outcome_fits(g: GraphView, payload: RpcPayload, ctx: ResourceContext, r: PayloadOutcome) -> bool {
    let reqs = payload_requests(payload);
    &&& reply_positions(r.replies@) == speaking_indices(reqs)
    &&& forall|k: int|
        0 <= k < r.replies@.len() ==> reply_fits(
            apply_requests(g, reqs.take(#[trigger] r.replies@[k].0 as int)),
            reqs[r.replies@[k].0 as int],
            ctx,
            r.replies@[k].1,
        )
    &&& opt_view(r.negotiated_version) == last_negotiated(reqs)
}

/// Handles the request at position `index` and records its reply, if it is answered,
/// and the version it agrees on, if any.
fn handle_numbered(
    graph: &mut MemoryGraph,
    req: &RpcRequest,
    index: usize,
    ctx: &ResourceContext,
    replies: &mut Vec<(usize, Reply)>,
    version: &mut Option<String>,
)
    requires
        old(graph).wf(),
    ensures
        final(graph).wf(),
        final(graph)@ == apply_request(old(graph)@, *req),
        speaks(*req) ==> final(replies)@.len() == old(replies)@.len() + 1 && final(replies)@
            == old(replies)@.push(final(replies)@.last()) && final(replies)@.last().0 == index
            && reply_fits(old(graph)@, *req, *ctx, final(replies)@.last().1),
        !speaks(*req) ==> final(replies)@ == old(replies)@,
        req.method@ == "initialize"@ ==> opt_view(*final(version)) == Some(
            negotiated_version(opt_view(req.protocol_version)),
        ),
        req.method@ != "initialize"@ ==> *final(version) == *old(version),
{
    let (reply, agreed) = protocol_handle_request(graph, req, ctx);
    match agreed {
        Some(v) => {
            *version = Some(v);
        },
        None => {},
    }
    match reply {
        Reply::Silent => {},
        _ => {
            replies.push((index, reply));
        },
    }
}

/// Handles a payload on the graph: its requests first to last, each as
/// `protocol_handle_request` does.
pub fn process_payload(graph: &mut MemoryGraph, payload: &RpcPayload, ctx: &ResourceContext) -> (r: PayloadOutcome)
    requires
        old(graph).wf(),
    ensures
        final(graph).wf(),
        final(graph)@ == apply_requests(old(graph)@, payload_requests(*payload)),
        outcome_fits(old(graph)@, *payload, *ctx, r),
{
    let mut replies: Vec<(usize, Reply)> = Vec::new();
    let mut version: Option<String> = None;
    let ghost g0 = graph@;
    match payload {
        RpcPayload::Single(req) => {
            let ghost reqs = payload_requests(*payload);
            proof {
                assert(reqs.len() == 1);
                assert(reqs.last() == *req);
                assert(reqs[0] == *req);
                assert(reqs.drop_last() =~= Seq::<RpcRequest>::empty());
                assert(reqs.take(0) =~= Seq::<RpcRequest>::empty());
                assert(apply_requests(g0, reqs.drop_last()) == g0);
                assert(speaking_indices(reqs.drop_last()) == Seq::<int>::empty());
                assert(last_negotiated(reqs.drop_last()) is None);
            }
            handle_numbered(graph, req, 0, ctx, &mut replies, &mut version);
            proof {
                if speaks(*req) {
                    assert(replies@.len() == 1);
                    assert(reply_positions(replies@) =~= seq![0int]);
                } else {
                    assert(reply_positions(replies@) =~= Seq::<int>::empty());
                }
            }
        },
        RpcPayload::Batch(reqs) => {
            for i in 0..reqs.len()
                invariant
                    graph.wf(),
                    graph@ == apply_requests(g0, reqs@.take(i as int)),
                    reply_positions(replies@) == speaking_indices(reqs@.take(i as int)),
                    forall|k: int|
                        0 <= k < replies@.len() ==> #[trigger] replies@[k].0 < i && reply_fits(
                            apply_requests(g0, reqs@.take(replies@[k].0 as int)),
                            reqs@[replies@[k].0 as int],
                            *ctx,
                            replies@[k].1,
                        ),
                    opt_view(version) == last_negotiated(reqs@.take(i as int)),
            {
                let ghost before = replies@;
                proof {
                    assert(reqs@.take(i + 1).drop_last() =~= reqs@.take(i as int));
                    assert(reqs@.take(i + 1).last() == reqs@[i as int]);
                }
                handle_numbered(graph, &reqs[i], i, ctx, &mut replies, &mut version);
                proof {
                    if speaks(reqs@[i as int]) {
                        assert(reply_positions(replies@) =~= reply_positions(before).push(i as int));
                        assert forall|k: int| 0 <= k < replies@.len() implies #[trigger] replies@[k].0 < i + 1 && reply_fits(
                            apply_requests(g0, reqs@.take(replies@[k].0 as int)),
                            reqs@[replies@[k].0 as int],
                            *ctx,
                            replies@[k].1,
                        ) by {
                            if k < before.len() {
                                assert(replies@[k] == before[k]);
                            }
                        }
                    }
                }
            }
            proof {
                assert(reqs@.take(reqs@.len() as int) =~= reqs@);
            }
        },
    }
    PayloadOutcome { replies, negotiated_version: version }
}

} // verus!
