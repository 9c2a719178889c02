use eddi::handshake::{
    current_timestamp, format_short_code, generate_access_token, generate_broker_identifier, generate_short_code,
    generate_time_window, round_timestamp, time_window_at, BrokerHandshake, ClientHandshake,
};

const SHORT_CODE_ALPHABET: &str = "23456789ABCDEFGHJKLMNPQRSTUVWXYZ";

#[test]
fn test_generate_short_code() {
    let code = generate_short_code();
    assert_eq!(code.len(), 7);
    assert!(code.contains('-'));
    for c in code.chars() {
        if c != '-' {
            assert!(SHORT_CODE_ALPHABET.contains(c));
        }
    }
}

#[test]
fn short_code_has_hyphen_after_third_character() {
    let code = generate_short_code();
    assert_eq!(code.chars().nth(3), Some('-'));
    assert_eq!(code.chars().filter(|c| *c == '-').count(), 1);
}

#[test]
fn test_generate_access_token() {
    let token = generate_access_token();
    assert_eq!(token.len(), 32);
    for c in token.chars() {
        assert!(c.is_alphanumeric());
    }
}

#[test]
fn test_broker_identifier_deterministic() {
    let namespace = "test@example.com";
    let timestamp = 1234567890;
    let code = "ABC-XYZ";
    let id1 = generate_broker_identifier(namespace, timestamp, code);
    let id2 = generate_broker_identifier(namespace, timestamp, code);
    assert_eq!(id1, id2, "Identifiers should be deterministic");
}

#[test]
fn test_broker_identifier_unique() {
    let namespace = "test@example.com";
    let timestamp = 1234567890;
    let id1 = generate_broker_identifier(namespace, timestamp, "ABC-XYZ");
    let id2 = generate_broker_identifier(namespace, timestamp, "DEF-123");
    assert_ne!(id1, id2, "Different codes should produce different identifiers");
}

#[test]
fn broker_identifier_is_truncated_sha256_hex() {
    // SHA-256 of namespace, little-endian timestamp and code; first 16 bytes.
    let id = generate_broker_identifier("test@example.com", 1234567890, "ABC-XYZ");
    assert_eq!(id, "5b9c6935007bbbcfbfb21d99bc3a2268");
    assert_eq!(id.len(), 32);
}

#[test]
fn broker_identifier_determinism_scenario() {
    let a = generate_broker_identifier("a@x.test", 1_700_000_000, "ABCXYZ");
    let b = generate_broker_identifier("a@x.test", 1_700_000_000, "ABCXYZ");
    assert_eq!(a, b);
    assert_eq!(a, "2c9a283881137a6da8f74e05d622965f");
    let c = generate_broker_identifier("a@x.test", 1_700_000_000, "ABCXY_Z");
    assert_ne!(a, c);
    let d = generate_broker_identifier("a@x.test", 1_700_000_060, "ABCXYZ");
    assert_ne!(a, d);
}

#[test]
fn test_round_timestamp() {
    let ts1 = 1234567890;
    let rounded = round_timestamp(ts1, 60);
    assert_eq!(rounded % 60, 0, "Should be divisible by interval");
    assert!(rounded <= ts1, "Should round down");
    assert!(ts1 - rounded < 60, "Should be within one interval");
}

#[test]
fn round_timestamp_exact_values() {
    assert_eq!(round_timestamp(1_700_000_060, 60), 1_700_000_040);
    assert_eq!(round_timestamp(120, 60), 120);
    assert_eq!(round_timestamp(59, 60), 0);
}

#[test]
fn test_time_window() {
    let window = generate_time_window(2);
    assert!(window.len() >= 5);
    for ts in &window {
        assert_eq!(ts % 60, 0);
    }
    for i in 1..window.len() {
        assert!(window[i] >= window[i - 1]);
    }
}

#[test]
fn time_window_exact_values() {
    let window = time_window_at(1_700_000_140, 2);
    assert_eq!(
        window,
        vec![1_699_999_980, 1_700_000_040, 1_700_000_100, 1_700_000_160, 1_700_000_220]
    );
    assert_eq!(time_window_at(1_700_000_140, 0), vec![1_700_000_100]);
}

#[test]
fn time_window_near_epoch_is_clipped() {
    assert_eq!(time_window_at(70, 2), vec![0, 60, 120, 180]);
}

#[test]
fn test_broker_handshake() {
    let handshake = BrokerHandshake::new(
        "test@example.com".to_string(),
        "ABC-XYZ".to_string(),
        "test123.onion".to_string(),
    );
    let identifier = handshake.identifier();
    assert!(!identifier.is_empty());
    assert!(handshake.validate_code("ABC-XYZ"));
    assert!(!handshake.validate_code("WRONG"));
}

#[test]
fn test_broker_handshake_flow() {
    let broker = BrokerHandshake::new(
        "test@example.com".to_string(),
        "ABC-XYZ".to_string(),
        "test123.onion".to_string(),
    );
    assert!(broker.validate_code("ABC-XYZ"));
    assert!(!broker.validate_code("WRONG"));
    let intro = broker.create_introduction(24);
    assert_eq!(intro.fortress_address, "test123.onion");
    assert!(!intro.access_token.is_empty());
    assert!(intro.expires_at > current_timestamp());
}

#[test]
fn test_client_handshake() {
    let handshake = ClientHandshake::new("test@example.com".to_string(), "ABC-XYZ".to_string());
    let identifiers = handshake.possible_identifiers(2);
    assert!(identifiers.len() >= 5);
    for (_, id) in &identifiers {
        assert!(id.chars().all(|c| c.is_ascii_hexdigit()));
    }
}

#[test]
fn test_client_handshake_time_window() {
    let client = ClientHandshake::new("test@example.com".to_string(), "ABC-XYZ".to_string());
    let identifiers = client.possible_identifiers(2);
    assert!(identifiers.len() >= 5);
    for (_, id) in &identifiers {
        assert!(id.chars().all(|c| c.is_ascii_hexdigit()));
    }
}

#[test]
fn test_introduction_data() {
    let handshake = BrokerHandshake::new(
        "test@example.com".to_string(),
        "ABC-XYZ".to_string(),
        "test123.onion".to_string(),
    );
    let intro = handshake.create_introduction(24);
    assert_eq!(intro.fortress_address, "test123.onion");
    assert!(!intro.access_token.is_empty());
    assert!(intro.expires_at > current_timestamp());
}

#[test]
fn introduction_expiry_exact() {
    let broker = BrokerHandshake::at_time(
        "ns".to_string(),
        "ABC-XYZ".to_string(),
        "fortress.onion".to_string(),
        1_700_000_000,
    );
    let intro = broker.introduction_at("token".to_string(), 1_700_000_000, 24);
    assert_eq!(intro.expires_at, 1_700_000_000 + 24 * 3600);
    assert_eq!(intro.access_token, "token");
    let far = broker.introduction_at("token".to_string(), u64::MAX - 10, 1);
    assert_eq!(far.expires_at, u64::MAX);
}

#[test]
fn rendezvous_window_finds_broker() {
    let broker = BrokerHandshake::at_time(
        "a@x.test".to_string(),
        "ABCXYZ".to_string(),
        "fortress.onion".to_string(),
        1_700_000_060,
    );
    assert_eq!(broker.timestamp, 1_700_000_040);
    let broker_id = broker.identifier();
    assert_eq!(broker_id, "146b6238bfb391c808dd5d67f8394f72");
    let client = ClientHandshake::new("a@x.test".to_string(), "ABCXYZ".to_string());
    let candidates = client.possible_identifiers_at(1_700_000_140, 2);
    assert!(candidates.iter().any(|(ts, id)| *ts == 1_700_000_040 && *id == broker_id));
}

#[test]
fn rendezvous_window_misses_other_code() {
    let broker = BrokerHandshake::at_time(
        "a@x.test".to_string(),
        "ABCXYZ".to_string(),
        "fortress.onion".to_string(),
        1_700_000_060,
    );
    let client = ClientHandshake::new("a@x.test".to_string(), "ZZZZZZ".to_string());
    let candidates = client.possible_identifiers_at(1_700_000_140, 2);
    assert!(!candidates.iter().any(|(_, id)| *id == broker.identifier()));
    assert_eq!(client.code(), "ZZZZZZ");
    assert_eq!(client.namespace(), "a@x.test");
}

#[test]
fn current_timestamp_reads_the_clock() {
    assert!(current_timestamp() > 1_600_000_000);
}

#[test]
fn test_handshake_code_generation() {
    let code = generate_short_code();
    assert_eq!(code.len(), 7);
    assert!(code.contains('-'));
    let token = generate_access_token();
    assert_eq!(token.len(), 32);
    let id1 = generate_broker_identifier("test@example.com", 1234567890, "ABC-XYZ");
    let id2 = generate_broker_identifier("test@example.com", 1234567890, "ABC-XYZ");
    assert_eq!(id1, id2);
    let id3 = generate_broker_identifier("test@example.com", 1234567890, "DEF-123");
    assert_ne!(id1, id3);
}

#[test]
fn short_code_formatting() {
    assert_eq!(format_short_code("ABCXYZ"), "ABC-XYZ");
    assert_eq!(format_short_code("234567"), "234-567");
}
