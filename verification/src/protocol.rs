use crate::models::{Entity, Relation};
use crate::text::owned;
use serde_json::Value;
use vstd::prelude::*;

verus! {

/// A JSON value of the `serde_json` crate, carried through unread.
#[verifier::external_type_specification]
#[verifier::external_body]
pub struct ExJsonValue(Value);

/// A JSON-RPC request as it arrives on the wire.
pub struct JsonRpcRequest {
    pub jsonrpc: String,
    pub id: Option<Value>,
    pub method: String,
    pub params: Option<Value>,
}

/// The error member of a JSON-RPC response.
pub struct JsonRpcError {
    pub code: i32,
    pub message: String,
    pub data: Option<Value>,
}

/// A JSON-RPC response: a result or an error, for the request with the same id.
pub struct JsonRpcResponse {
    pub jsonrpc: String,
    pub id: Value,
    pub result: Option<Value>,
    pub error: Option<JsonRpcError>,
}

impl JsonRpcResponse {
    /// A version 2.0 response that carries `result` for the request `id`.
    pub fn success(id: Value, result: Value) -> (r: Self)
        ensures
            r.jsonrpc@ == "2.0"@,
            r.id == id,
            r.result == Some(result),
            r.error is None,
    {
        JsonRpcResponse { jsonrpc: owned("2.0"), id, result: Some(result), error: None }
    }

    /// A version 2.0 response that carries the error `code` and `message` for the
    /// request `id`, with no data.
    pub fn error(id: Value, code: i32, message: &str) -> (r: Self)
        ensures
            r.jsonrpc@ == "2.0"@,
            r.id == id,
            r.result is None,
            r.error matches Some(e) && e.code == code && e.message@ == message@ && e.data is None,
    {
        JsonRpcResponse {
            jsonrpc: owned("2.0"),
            id,
            result: None,
            error: Some(JsonRpcError { code, message: owned(message), data: None }),
        }
    }
}

/// Arguments of the `create_entities` tool.
pub struct CreateEntitiesParams {
    pub entities: Vec<Entity>,
}

/// Arguments of the `create_relations` tool.
pub struct CreateRelationsParams {
    pub relations: Vec<Relation>,
}

/// One entity's new observations, for the `add_observations` tool.
pub struct ObservationEntry {
    pub entity_name: String,
    pub contents: Vec<String>,
}

/// Arguments of the `add_observations` tool.
pub struct AddObservationsParams {
    pub observations: Vec<ObservationEntry>,
}

/// Arguments of the `search_nodes` tool.
pub struct SearchNodesParams {
    pub query: String,
}

/// Arguments of the `open_nodes` tool.
pub struct OpenNodesParams {
    pub names: Vec<String>,
}

/// Arguments of the `delete_entities` tool.
pub struct DeleteEntitiesParams {
    pub entity_names: Vec<String>,
}

/// Arguments of the `delete_observations` tool.
pub struct DeleteObservationsParams {
    pub entity_name: String,
    pub observations: Vec<String>,
}

/// Arguments of the `delete_relations` tool.
pub struct DeleteRelationsParams {
    pub relations: Vec<Relation>,
}

/// The arguments of a tool call, read in every form that a tool accepts: each field
/// holds the arguments read as that tool's parameters, or nothing when they do not fit.
pub struct ToolArguments {
    pub create_entities: Option<CreateEntitiesParams>,
    pub create_relations: Option<CreateRelationsParams>,
    pub add_observations: Option<AddObservationsParams>,
    pub search_nodes: Option<SearchNodesParams>,
    pub open_nodes: Option<OpenNodesParams>,
    pub delete_entities: Option<DeleteEntitiesParams>,
    pub delete_observations: Option<DeleteObservationsParams>,
    pub delete_relations: Option<DeleteRelationsParams>,
}

/// The parameters of a `tools/call` request: the tool's name and its arguments.
pub struct CallToolParams {
    pub name: String,
    pub arguments: ToolArguments,
}

/// A request with the parts of its parameters that the methods read.
pub struct RpcRequest {
    /// The method called.
    pub method: String,
    /// The request has no id, so it gets no response.
    pub is_notification: bool,
    /// The request has parameters.
    pub has_params: bool,
    /// The parameters, read as a tool call, when they fit.
    pub tool_call: Option<CallToolParams>,
    /// `protocolVersion` of the parameters, when it is a string.
    pub protocol_version: Option<String>,
    /// `uri` of the parameters, when it is a string.
    pub uri: Option<String>,
}

/// One request, or a batch of them.
pub enum RpcPayload {
    Single(RpcRequest),
    Batch(Vec<RpcRequest>),
}

/// Where the server keeps its files: the root of the graph storage and, when set, the
/// folder of the guideline documents.
pub struct ResourceContext {
    pub storage_root: String,
    pub docs_dir: Option<String>,
}

/// Where the text of a resource comes from: a file, and the text to give when the
/// file cannot be read (or when there is no file).
pub struct ResourceSource {
    pub path: Option<String>,
    pub fallback: String,
}

/// A field of the records that a tool parameter lists: a string, or a list of strings.
pub struct RecordField {
    pub name: String,
    pub is_list: bool,
}

/// What a tool parameter takes: a string, a list of strings, or a list of records with
/// the given fields.
pub enum ParamKind {
    Text,
    TextList,
    RecordList(Vec<RecordField>),
}

/// A parameter of a tool. Every parameter of a tool is required, and so is every field
/// of the records it lists.
pub struct ToolParam {
    pub name: String,
    pub kind: ParamKind,
}

/// A tool offered by `tools/list`: its name, what it does, and the parameters of its
/// input.
pub struct ToolInfo {
    pub name: String,
    pub description: String,
    pub params: Vec<ToolParam>,
}

/// A resource offered by `resources/list`.
pub struct ResourceEntry {
    pub uri: String,
    pub name: String,
    pub description: String,
}

/// The result of a successful request, before it is written as JSON.
pub enum RpcResult {
    /// A tool's message, given as one text content.
    ToolText(String),
    /// Entities and relations, given as the text of a JSON object with both lists.
    GraphDump(Vec<Entity>, Vec<Relation>),
    /// Entities, given as the text of a JSON list.
    EntityDump(Vec<Entity>),
    /// The outcome of a health check: its status word and the problems found.
    HealthReport { status: String, errors: Vec<String> },
    /// The answer to `initialize`, with the protocol version agreed on.
    Initialized(String),
    /// The list of tools, in the order they are offered.
    ToolCatalog(Vec<ToolInfo>),
    /// The list of resources (the project graphs present are added to it).
    ResourceCatalog,
    /// The contents of a resource.
    ResourceContents { uri: String, source: ResourceSource },
    /// The (empty) list of resource templates.
    ResourceTemplates,
    /// The (empty) list of prompts.
    PromptCatalog,
}

/// What a request is answered.
pub enum Reply {
    /// No response (a notification).
    Silent,
    /// A result.
    Success(RpcResult),
    /// An error.
    Failure { code: i32, message: String },
}

} // verus!
