use mcp_memory_server_rust::protocol::JsonRpcResponse;
use serde_json::Value;

fn ok_object() -> Value {
    let mut m = serde_json::Map::new();
    m.insert("ok".to_string(), Value::Bool(true));
    Value::Object(m)
}

#[test]
fn success_response_carries_the_result() {
    let r = JsonRpcResponse::success(Value::from(7), ok_object());
    assert_eq!(r.jsonrpc, "2.0");
    assert_eq!(r.id, Value::from(7));
    assert_eq!(r.result, Some(ok_object()));
    assert!(r.error.is_none());
}

#[test]
fn error_response_carries_code_and_message() {
    let r = JsonRpcResponse::error(Value::from("abc"), -32601, "Method not found");
    assert_eq!(r.jsonrpc, "2.0");
    assert_eq!(r.id, Value::from("abc"));
    assert!(r.result.is_none());
    let e = r.error.unwrap();
    assert_eq!(e.code, -32601);
    assert_eq!(e.message, "Method not found");
    assert!(e.data.is_none());
}
