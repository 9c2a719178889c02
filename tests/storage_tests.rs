use eddi::storage::{
    ClientStatus, ConnectionConfig, ServerConfig, ServerStatus, StateManager, StoreError,
};

fn server(id: &str, name: &str, status: ServerStatus) -> ServerConfig {
    ServerConfig {
        id: id.to_string(),
        name: name.to_string(),
        socket_path: "/tmp/test.sock".to_string(),
        created_at: 1_700_000_000,
        ttl_minutes: 5,
        onion_address: None,
        status,
    }
}

#[test]
fn test_state_manager() {
    let mut manager = StateManager::new();
    let server = server("id-1", "test-server", ServerStatus::Running);
    manager.create_server(server.clone()).unwrap();
    let retrieved = manager.get_server("test-server").unwrap();
    assert_eq!(retrieved.name, server.name);
    let servers = manager.list_servers();
    assert_eq!(servers.len(), 1);
    let client = manager.create_client(&server.id).unwrap();
    assert!(!client.code.is_empty());
    let retrieved_client = manager.get_client_by_code(&client.code).unwrap();
    assert_eq!(retrieved_client.code, client.code);
}

#[test]
fn test_client_authentication() {
    let mut manager = StateManager::new();
    let server_config = server("test-server", "test", ServerStatus::Running);
    manager.create_server(server_config.clone()).unwrap();
    let client = manager.create_client(&server_config.id).unwrap();
    assert!(!client.code.is_empty());
    let retrieved = manager.get_client_by_code(&client.code);
    assert!(retrieved.is_some());
    assert_eq!(retrieved.unwrap().code, client.code);
}

#[test]
fn onion_and_status_updates() {
    let mut manager = StateManager::new();
    let s = server("test-server", "test", ServerStatus::Running);
    manager.create_server(s.clone()).unwrap();
    manager.update_server_onion("test-server", "test.onion");
    let found = manager.get_server("test").unwrap();
    assert_eq!(found.onion_address.as_deref(), Some("test.onion"));
    manager.update_server_status("test-server", ServerStatus::Stopped);
    assert_eq!(manager.get_server_by_id("test-server").unwrap().status, ServerStatus::Stopped);
}

#[test]
fn create_then_get_returns_same_server() {
    let mut manager = StateManager::new();
    let s = server("id-1", "alpha", ServerStatus::Running);
    manager.create_server(s.clone()).unwrap();
    assert_eq!(manager.get_server("alpha"), Some(s));
}

#[test]
fn duplicate_server_name_is_refused() {
    let mut manager = StateManager::new();
    manager.create_server(server("id-1", "alpha", ServerStatus::Running)).unwrap();
    let again = manager.create_server(server("id-2", "alpha", ServerStatus::Running));
    assert_eq!(again, Err(StoreError::DuplicateServer));
    assert_eq!(manager.list_servers().len(), 1);
}

#[test]
fn client_code_shape() {
    let mut manager = StateManager::new();
    let c = manager.create_client("srv").unwrap();
    assert_eq!(c.code.len(), 12);
    assert!(c.code.chars().all(|ch| "ABCDEFGHJKLMNPQRSTUVWXYZ23456789".contains(ch)));
    assert_eq!(c.status, ClientStatus::Pending);
    assert_eq!(c.connected_at, None);
}

#[test]
fn update_client_status_records_connection_time() {
    let mut manager = StateManager::new();
    let c = manager.create_client("srv").unwrap();
    manager.update_client_status_at(&c.id, ClientStatus::Connected, 42);
    let got = manager.get_client_by_code(&c.code).unwrap();
    assert_eq!(got.status, ClientStatus::Connected);
    assert_eq!(got.connected_at, Some(42));
    manager.update_client_status_at(&c.id, ClientStatus::Disconnected, 50);
    assert_eq!(manager.get_client_by_code(&c.code).unwrap().connected_at, None);
}

#[test]
fn delete_server_cascades_to_codes() {
    let mut manager = StateManager::new();
    manager.create_server(server("id-1", "alpha", ServerStatus::Running)).unwrap();
    manager.create_server(server("id-2", "beta", ServerStatus::Running)).unwrap();
    let a = manager.create_client("id-1").unwrap();
    let b = manager.create_client("id-2").unwrap();
    manager.delete_server("alpha");
    assert!(manager.get_server("alpha").is_none());
    assert!(manager.get_client_by_code(&a.code).is_none());
    assert!(manager.get_client_by_code(&b.code).is_some());
    assert_eq!(manager.list_clients("id-2").len(), 1);
}

#[test]
fn cleanup_removes_only_stopped_servers() {
    let mut manager = StateManager::new();
    manager.create_server(server("id-1", "alpha", ServerStatus::Running)).unwrap();
    manager.create_server(server("id-2", "beta", ServerStatus::Stopped)).unwrap();
    let b = manager.create_client("id-2").unwrap();
    assert_eq!(manager.cleanup_stopped(), 1);
    assert_eq!(manager.list_servers().len(), 1);
    assert!(manager.get_client_by_code(&b.code).is_none());
    assert_eq!(manager.cleanup_stopped(), 0);
    assert_eq!(manager.list_servers().len(), 1);
}

#[test]
fn connections_by_name_or_alias() {
    let mut manager = StateManager::new();
    let conn = ConnectionConfig {
        id: "c1".to_string(),
        server_name: "fortress.onion".to_string(),
        alias: Some("home".to_string()),
        code: "ABC-XYZ".to_string(),
        socket_path: None,
        onion_address: Some("fortress.onion".to_string()),
        connected_at: 7,
        status: ClientStatus::Connected,
    };
    manager.create_connection(conn.clone()).unwrap();
    assert_eq!(manager.create_connection(conn.clone()), Err(StoreError::DuplicateConnection));
    assert_eq!(manager.get_connection("home"), Some(conn.clone()));
    assert_eq!(manager.get_connection("fortress.onion"), Some(conn));
    assert_eq!(manager.list_connections().len(), 1);
    manager.delete_connection("home");
    assert!(manager.list_connections().is_empty());
}

#[test]
fn status_names_round_trip() {
    for s in [ServerStatus::Running, ServerStatus::Stopped, ServerStatus::Error] {
        assert_eq!(ServerStatus::from_string(&s.to_string()), s);
    }
    assert_eq!(ServerStatus::Running.to_string(), "running");
    assert_eq!(ServerStatus::from_string("bogus"), ServerStatus::Error);
    for s in [ClientStatus::Pending, ClientStatus::Connected, ClientStatus::Disconnected] {
        assert_eq!(ClientStatus::from_string(&s.to_string()), s);
    }
    assert_eq!(ClientStatus::Connected.to_string(), "connected");
    assert_eq!(ClientStatus::from_string("bogus"), ClientStatus::Disconnected);
}

#[test]
fn listings_are_newest_first() {
    let mut manager = StateManager::new();
    let mut old = server("id-1", "old", ServerStatus::Running);
    old.created_at = 100;
    let mut new = server("id-2", "new", ServerStatus::Running);
    new.created_at = 300;
    let mut mid = server("id-3", "mid", ServerStatus::Running);
    mid.created_at = 200;
    manager.create_server(old).unwrap();
    manager.create_server(new).unwrap();
    manager.create_server(mid).unwrap();
    let names: Vec<String> = manager.list_servers().into_iter().map(|s| s.name).collect();
    assert_eq!(names, vec!["new", "mid", "old"]);

    for (id, at) in [("c1", 10u64), ("c2", 30), ("c3", 20)] {
        manager
            .create_connection(ConnectionConfig {
                id: id.to_string(),
                server_name: id.to_string(),
                alias: None,
                code: "X".to_string(),
                socket_path: None,
                onion_address: None,
                connected_at: at,
                status: ClientStatus::Connected,
            })
            .unwrap();
    }
    let ids: Vec<String> = manager.list_connections().into_iter().map(|c| c.id).collect();
    assert_eq!(ids, vec!["c2", "c3", "c1"]);
}

#[test]
fn first_client_code_always_succeeds() {
    let mut manager = StateManager::new();
    assert!(manager.create_client("srv").is_ok());
}
