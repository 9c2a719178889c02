use eddi::process::{after_failed_connect, ConnectRetry};
use eddi::bridge::{decide_request, RequestAction, StreamRequestKind, MESSAGE_PORT, WEB_PORT};
use eddi::config::{join_path, server_socket_path, summary_verdict, Config, EddiConfig, SummaryVerdict};

#[test]
fn test_eddi_config_default() {
    let config = EddiConfig::default();
    assert_eq!(config.socket_path, "/tmp/eddi.sock");
    assert_eq!(config.workers, 2);
    assert_eq!(config.app_module, "app:app");
}

#[test]
fn key_storage_path_joins_nickname() {
    let mut config = EddiConfig::default();
    config.key_dir = "/home/u/.eddi/onion-services".to_string();
    config.onion_service_nickname = "my-blog".to_string();
    assert_eq!(config.get_key_storage_path(), "/home/u/.eddi/onion-services/my-blog");
    assert_eq!(join_path("/keys/", "x"), "/keys/x");
    assert_eq!(join_path("/keys", "/abs"), "/abs");
    assert_eq!(join_path("", "x"), "x");
}

#[test]
fn test_config_default() {
    let config = Config::default();
    assert_eq!(config.socket_path, "/tmp/eddi-task3.sock");
    assert_eq!(config.gunicorn_workers, 1);
}

#[test]
fn summary_verdicts() {
    assert_eq!(summary_verdict(5, 0), SummaryVerdict::AllPassed);
    assert_eq!(summary_verdict(3, 0), SummaryVerdict::CriticalPassed);
    assert_eq!(summary_verdict(9, 1), SummaryVerdict::SomeFailed);
    assert_eq!(summary_verdict(2, 0), SummaryVerdict::Inconclusive);
}

#[test]
fn socket_path_of_server() {
    assert_eq!(server_socket_path("alpha"), "/tmp/eddi-msgsrv-alpha.sock");
}

#[test]
fn bridge_accepts_only_permitted_begin() {
    let web = vec![WEB_PORT];
    assert_eq!(decide_request(StreamRequestKind::Begin { port: 80 }, &web), RequestAction::Accept);
    assert_eq!(decide_request(StreamRequestKind::Begin { port: 81 }, &web), RequestAction::ShutdownCircuit);
    assert_eq!(decide_request(StreamRequestKind::BeginDir, &web), RequestAction::ShutdownCircuit);
    assert_eq!(decide_request(StreamRequestKind::Other, &web), RequestAction::ShutdownCircuit);
    let msg = vec![MESSAGE_PORT];
    assert_eq!(decide_request(StreamRequestKind::Begin { port: 9999 }, &msg), RequestAction::Accept);
}

#[test]
fn connect_retry_gives_up_after_ten_failures() {
    assert_eq!(after_failed_connect(1), ConnectRetry::RetryAfter { millis: 500 });
    assert_eq!(after_failed_connect(10), ConnectRetry::RetryAfter { millis: 500 });
    assert_eq!(after_failed_connect(11), ConnectRetry::GiveUp);
}
