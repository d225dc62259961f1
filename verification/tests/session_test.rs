use mcp_memory_server_rust::models::MemoryScope;
use mcp_memory_server_rust::session::SessionManager;
use mcp_memory_server_rust::transport::{
    endpoint_uri, is_authorized, origin_allowed, resolve_legacy_target, resolve_streamable_target,
    response_version, split_origins,
};

#[test]
fn sessions_are_created_found_updated_and_removed() {
    let mut sessions = SessionManager::new();
    let id = sessions.create_session("proj_a".to_string(), MemoryScope::Agent("bot".to_string()));
    assert_eq!(id.len(), 36);
    let s = sessions.get_session(&id).unwrap();
    assert_eq!(s.project_id, "proj_a");
    assert!(matches!(s.scope, MemoryScope::Agent(ref a) if a == "bot"));
    assert_eq!(s.protocol_version, "2024-11-05");
    assert!(sessions.set_protocol_version(&id, "2025-11-25".to_string()));
    assert_eq!(sessions.get_session(&id).unwrap().protocol_version, "2025-11-25");
    assert!(!sessions.set_protocol_version("unknown", "x".to_string()));
    sessions.remove_session(&id);
    assert!(sessions.get_session(&id).is_none());
}

#[test]
fn two_sessions_get_different_ids() {
    let mut sessions = SessionManager::new();
    let a = sessions.create_session("p".to_string(), MemoryScope::Shared);
    let b = sessions.create_session("p".to_string(), MemoryScope::Shared);
    assert_ne!(a, b);
}

#[test]
fn streamable_target_follows_the_session() {
    let mut sessions = SessionManager::new();
    let id = sessions.create_session("proj_a".to_string(), MemoryScope::Shared);
    let t = resolve_streamable_target(&sessions, Some(&id), "proj_b".to_string(), MemoryScope::Agent("x".to_string()));
    assert_eq!(t.project_id, "proj_a");
    assert!(matches!(t.scope, MemoryScope::Shared));
    assert_eq!(t.session_id, Some(id.clone()));
    let t = resolve_streamable_target(&sessions, Some("unknown"), "proj_b".to_string(), MemoryScope::Shared);
    assert_eq!(t.project_id, "proj_b");
    assert!(t.session_id.is_none());
    let t = resolve_streamable_target(&sessions, None, "proj_c".to_string(), MemoryScope::Shared);
    assert_eq!(t.project_id, "proj_c");
}

#[test]
fn legacy_target_defaults_to_the_default_project() {
    let mut sessions = SessionManager::new();
    let id = sessions.create_session("proj".to_string(), MemoryScope::Agent("a".to_string()));
    let t = resolve_legacy_target(&sessions, &id);
    assert_eq!(t.project_id, "proj");
    let t = resolve_legacy_target(&sessions, "nope");
    assert_eq!(t.project_id, "default");
    assert!(matches!(t.scope, MemoryScope::Shared));
    assert!(t.session_id.is_none());
}

#[test]
fn response_version_of_a_session_or_latest() {
    let mut sessions = SessionManager::new();
    let id = sessions.create_session("p".to_string(), MemoryScope::Shared);
    assert_eq!(response_version(&sessions, &Some(id.clone())), "2024-11-05");
    assert_eq!(response_version(&sessions, &None), "2025-11-25");
    assert_eq!(response_version(&sessions, &Some("zzz".to_string())), "2025-11-25");
}

#[test]
fn authorization_needs_the_exact_bearer_key() {
    let key = Some("test-secret-key".to_string());
    assert!(!is_authorized(&key, None));
    assert!(!is_authorized(&key, Some("Bearer ")));
    assert!(!is_authorized(&key, Some("Basic test-secret-key")));
    assert!(!is_authorized(&key, Some("bearer test-secret-key")));
    assert!(is_authorized(&key, Some("Bearer test-secret-key")));
    assert!(is_authorized(&None, None));
    assert!(is_authorized(&None, Some("anything")));
}

#[test]
fn allowed_origins_are_split_on_commas() {
    let list = split_origins("https://trusted.com,http://localhost:8080");
    assert_eq!(list, vec!["https://trusted.com".to_string(), "http://localhost:8080".to_string()]);
    assert!(origin_allowed(&list, "https://trusted.com"));
    assert!(!origin_allowed(&list, "https://malicious.com"));
    assert_eq!(split_origins(""), vec!["".to_string()]);
    assert_eq!(split_origins("a,,b"), vec!["a".to_string(), "".to_string(), "b".to_string()]);
}

#[test]
fn endpoint_uri_names_host_and_session() {
    assert_eq!(
        endpoint_uri(Some("example.org:8080"), "abc-123"),
        "http://example.org:8080/message?session_id=abc-123"
    );
    assert_eq!(endpoint_uri(None, "s1"), "http://localhost:3000/message?session_id=s1");
}

#[test]
fn a_session_lives_from_creation_to_removal() {
    let mut sessions = SessionManager::new();
    let a = sessions.create_session("p".to_string(), MemoryScope::Shared);
    let b = sessions.create_session("q".to_string(), MemoryScope::Agent("bot".to_string()));
    assert!(sessions.set_protocol_version(&b, "2025-03-26".to_string()));
    sessions.remove_session(&a);
    assert!(sessions.get_session(&a).is_none());
    let s = sessions.get_session(&b).unwrap();
    assert_eq!(s.project_id, "q");
    assert_eq!(s.protocol_version, "2025-03-26");
    assert!(!sessions.set_protocol_version(&a, "2025-03-26".to_string()));
    assert!(sessions.get_session(&a).is_none());
}

#[test]
fn session_ids_are_lowercase_v4_uuids() {
    let mut sessions = SessionManager::new();
    let id = sessions.create_session("p".to_string(), MemoryScope::Shared);
    let chars: Vec<char> = id.chars().collect();
    assert_eq!(chars.len(), 36);
    for (i, c) in chars.iter().enumerate() {
        if i == 8 || i == 13 || i == 18 || i == 23 {
            assert_eq!(*c, '-');
        } else {
            assert!(c.is_ascii_digit() || ('a'..='f').contains(c));
        }
    }
    assert_eq!(chars[14], '4');
    assert!(['8', '9', 'a', 'b'].contains(&chars[19]));
}
