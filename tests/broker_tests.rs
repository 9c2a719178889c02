use eddi::broker::{BrokerCommand, BrokerStep, FortressBroker, MessageBroker};
use eddi::client::{ClientConnection, ClientError, ClientManager};
use eddi::message::{Message, ProtocolMessage};
use eddi::storage::{ClientConfig, ClientStatus};

fn code_record(code: &str, server_id: &str) -> ClientConfig {
    ClientConfig {
        id: "code-1".to_string(),
        server_id: server_id.to_string(),
        code: code.to_string(),
        created_at: 0,
        connected_at: None,
        status: ClientStatus::Pending,
    }
}

#[test]
fn test_client_manager() {
    let mut manager = ClientManager::new();
    let client = ClientConnection::new();
    let id = client.id.clone();
    manager.add_client(client);
    assert_eq!(manager.client_count(), 1);
    assert_eq!(manager.authenticated_count(), 0);
    manager.authenticate_client(&id).unwrap();
    assert_eq!(manager.authenticated_count(), 1);
    assert_eq!(manager.get_authenticated_clients(), vec![id.clone()]);
    manager.remove_client(&id);
    assert_eq!(manager.client_count(), 0);
}

#[test]
fn authenticate_unknown_client_fails() {
    let mut manager = ClientManager::new();
    assert_eq!(manager.authenticate_client("nobody"), Err(ClientError::NotFound));
}

#[test]
fn send_to_closed_client_fails() {
    let mut manager = ClientManager::new();
    manager.add_client(ClientConnection::with_id("a".to_string()));
    manager.close_client("a");
    assert_eq!(manager.send_to_client("a", ProtocolMessage::Pong), Err(ClientError::Closed));
    assert_eq!(manager.send_to_client("b", ProtocolMessage::Pong), Err(ClientError::NotFound));
}

#[test]
fn broadcast_reaches_authenticated_and_drops_closed() {
    let mut manager = ClientManager::new();
    manager.add_client(ClientConnection::with_id("a".to_string()));
    manager.add_client(ClientConnection::with_id("b".to_string()));
    manager.add_client(ClientConnection::with_id("c".to_string()));
    manager.authenticate_client("a").unwrap();
    manager.authenticate_client("c").unwrap();
    manager.close_client("c");
    let m1 = Message::stamped("1".to_string(), "a".to_string(), "hello".to_string(), 0, 10);
    let m2 = Message::stamped("2".to_string(), "b".to_string(), "again".to_string(), 1, 10);
    manager.broadcast(m1);
    manager.broadcast(m2);
    assert_eq!(manager.client_count(), 2);
    let out_a = manager.take_outbound("a");
    assert_eq!(out_a.len(), 2);
    assert!(matches!(&out_a[0], ProtocolMessage::Broadcast { message } if message.content == "hello"));
    assert!(matches!(&out_a[1], ProtocolMessage::Broadcast { message } if message.content == "again"));
    assert!(manager.take_outbound("b").is_empty());
    assert!(manager.take_outbound("c").is_empty());
}

#[test]
fn add_client_with_same_id_replaces() {
    let mut manager = ClientManager::new();
    manager.add_client(ClientConnection::with_id("a".to_string()));
    manager.authenticate_client("a").unwrap();
    manager.add_client(ClientConnection::with_id("a".to_string()));
    assert_eq!(manager.client_count(), 1);
    assert_eq!(manager.authenticated_count(), 0);
}

#[test]
fn test_broker_message_flow() {
    let mut broker = MessageBroker::new(60_000, 100, false, None);
    broker.add_client(ClientConnection::with_id("test".to_string()));
    let step = broker.handle_command(
        BrokerCommand::ClientMessage { client_id: "test".to_string(), message: ProtocolMessage::Ping },
        None,
        "m1".to_string(),
        0,
    );
    assert!(matches!(step, BrokerStep::Continue { connected_code: None, error: None }));
    let out = broker.take_outbound("test");
    assert!(matches!(out.as_slice(), [ProtocolMessage::Pong]));
    let stop = broker.handle_command(BrokerCommand::Shutdown, None, "m2".to_string(), 0);
    assert!(matches!(stop, BrokerStep::Stop));
}

#[test]
fn auth_with_matching_code() {
    let mut broker = MessageBroker::new(60_000, 100, true, Some("S".to_string()));
    broker.add_client(ClientConnection::with_id("s1".to_string()));
    let auth = ProtocolMessage::Auth { code: "K".to_string(), client_id: "c1".to_string() };
    let connected = broker.handle_client_message("s1", auth, Some(code_record("K", "S")), "m0".to_string(), 0);
    assert_eq!(connected, Ok(Some("code-1".to_string())));
    let out = broker.take_outbound("s1");
    assert_eq!(out.len(), 1);
    match &out[0] {
        ProtocolMessage::AuthResponse { success, message, server_id } => {
            assert!(*success);
            assert_eq!(message, "Authenticated");
            assert_eq!(server_id.as_deref(), Some("S"));
        }
        other => panic!("unexpected reply {:?}", other),
    }
    assert_eq!(broker.client_manager().authenticated_count(), 1);
    let send = ProtocolMessage::Send { content: "hi".to_string() };
    assert_eq!(broker.handle_client_message("s1", send, None, "m1".to_string(), 1_000), Ok(None));
    let out = broker.take_outbound("s1");
    assert_eq!(out.len(), 1);
    match &out[0] {
        ProtocolMessage::Broadcast { message } => {
            assert_eq!(message.content, "hi");
            assert_eq!(message.from, "s1");
            assert_eq!(message.id, "m1");
        }
        other => panic!("unexpected message {:?}", other),
    }
}

#[test]
fn auth_with_wrong_server() {
    let mut broker = MessageBroker::new(60_000, 100, true, Some("S2".to_string()));
    broker.add_client(ClientConnection::with_id("s1".to_string()));
    let auth = ProtocolMessage::Auth { code: "K".to_string(), client_id: "c1".to_string() };
    let connected = broker.handle_client_message("s1", auth, Some(code_record("K", "S1")), "m0".to_string(), 0);
    assert_eq!(connected, Ok(None));
    let out = broker.take_outbound("s1");
    assert_eq!(out.len(), 1);
    match &out[0] {
        ProtocolMessage::AuthResponse { success, message, .. } => {
            assert!(!*success);
            assert_eq!(message, "Invalid code");
        }
        other => panic!("unexpected reply {:?}", other),
    }
    assert_eq!(broker.client_manager().client_count(), 1);
    assert_eq!(broker.client_manager().authenticated_count(), 0);
}

#[test]
fn auth_with_unknown_code() {
    let mut broker = MessageBroker::new(60_000, 100, true, Some("S".to_string()));
    broker.add_client(ClientConnection::with_id("s1".to_string()));
    broker.handle_auth("s1", None);
    let out = broker.take_outbound("s1");
    assert!(matches!(&out[0], ProtocolMessage::AuthResponse { success: false, .. }));
    assert_eq!(broker.client_manager().authenticated_count(), 0);
}

#[test]
fn auth_without_store_accepts() {
    let mut broker = MessageBroker::new(60_000, 100, false, None);
    broker.add_client(ClientConnection::with_id("s1".to_string()));
    assert_eq!(broker.handle_auth("s1", None), None);
    assert_eq!(broker.client_manager().authenticated_count(), 1);
}

#[test]
fn receive_returns_live_messages_to_sender_only() {
    let mut broker = MessageBroker::new(100, 10, false, None);
    broker.add_client(ClientConnection::with_id("a".to_string()));
    broker.add_client(ClientConnection::with_id("b".to_string()));
    broker.handle_send("a", "old".to_string(), "1".to_string(), 1_000);
    broker.handle_send("a", "new".to_string(), "2".to_string(), 1_080);
    assert_eq!(broker.handle_receive("b", None, 1_120), Ok(()));
    assert!(broker.take_outbound("a").is_empty());
    let out = broker.take_outbound("b");
    match &out[0] {
        ProtocolMessage::ReceiveResponse { messages } => {
            assert_eq!(messages.len(), 1);
            assert_eq!(messages[0].content, "new");
        }
        other => panic!("unexpected reply {:?}", other),
    }
}

#[test]
fn disconnect_removes_session() {
    let mut broker = MessageBroker::new(60_000, 10, false, None);
    broker.add_client(ClientConnection::with_id("a".to_string()));
    broker.handle_command(
        BrokerCommand::ClientDisconnected { client_id: "a".to_string() },
        None,
        "m".to_string(),
        0,
    );
    assert_eq!(broker.client_manager().client_count(), 0);
}

#[test]
fn fortress_tokens_add_validate_revoke() {
    let mut fortress = FortressBroker::new(60_000, 10, "S".to_string());
    assert!(!fortress.validate_token("t1"));
    fortress.add_token("t1".to_string());
    fortress.add_token("t2".to_string());
    fortress.add_token("t1".to_string());
    assert!(fortress.validate_token("t1"));
    assert!(fortress.validate_token("t2"));
    fortress.revoke_token("t1");
    assert!(!fortress.validate_token("t1"));
    assert!(fortress.validate_token("t2"));
    assert_eq!(fortress.client_manager().client_count(), 0);
}

#[test]
fn receive_from_unknown_session_is_reported() {
    let mut broker = MessageBroker::new(60_000, 10, false, None);
    assert_eq!(broker.handle_receive("ghost", None, 0), Err(ClientError::NotFound));
    let step = broker.handle_command(
        BrokerCommand::ClientMessage { client_id: "ghost".to_string(), message: ProtocolMessage::Ping },
        None,
        "m".to_string(),
        0,
    );
    assert!(matches!(step, BrokerStep::Continue { connected_code: None, error: Some(ClientError::NotFound) }));
}

#[test]
fn ping_to_closed_session_is_reported() {
    let mut broker = MessageBroker::new(60_000, 10, false, None);
    broker.add_client(ClientConnection::with_id("a".to_string()));
    broker.close_client("a");
    assert_eq!(broker.handle_ping("a"), Err(ClientError::Closed));
}

#[test]
fn registered_session_starts_unauthenticated_and_open() {
    let mut broker = MessageBroker::new(60_000, 10, true, Some("S".to_string()));
    let id = broker.add_client(ClientConnection::new());
    assert_eq!(broker.client_manager().client_count(), 1);
    assert_eq!(broker.client_manager().authenticated_count(), 0);
    assert_eq!(broker.handle_ping(&id), Ok(()));
}
