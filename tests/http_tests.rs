use eddi::http::{parse_http_response, parse_url, ResponseError, UrlError};

#[test]
fn test_parse_http_response() {
    let response = "HTTP/1.1 200 OK\r\nContent-Type: text/plain\r\n\r\nHello, World!";
    let (status, body) = parse_http_response(response).unwrap();
    assert_eq!(status, "HTTP/1.1 200 OK");
    assert_eq!(body, "Hello, World!");
}

#[test]
fn http_response_errors() {
    assert_eq!(parse_http_response("HTTP/1.1 200 OK\r\n"), Err(ResponseError::InvalidFormat));
    assert_eq!(parse_http_response("\r\n\r\nbody"), Err(ResponseError::NoStatusLine));
    let (status, body) = parse_http_response("HTTP/1.0 404\r\n\r\n").unwrap();
    assert_eq!(status, "HTTP/1.0 404");
    assert_eq!(body, "");
}

#[test]
fn test_parse_url_onion() {
    let (addr, port, path, is_onion) = parse_url("http://example.onion:80").unwrap();
    assert_eq!(addr, "example.onion");
    assert_eq!(port, 80);
    assert_eq!(path, "/");
    assert!(is_onion);

    let (addr, port, path, is_onion) = parse_url("example.onion:80/status").unwrap();
    assert_eq!(addr, "example.onion");
    assert_eq!(port, 80);
    assert_eq!(path, "/status");
    assert!(is_onion);

    let (addr, port, path, is_onion) = parse_url("example.onion").unwrap();
    assert_eq!(addr, "example.onion");
    assert_eq!(port, 80);
    assert_eq!(path, "/");
    assert!(is_onion);

    let (addr, port, path, is_onion) = parse_url("example.onion/status").unwrap();
    assert_eq!(addr, "example.onion");
    assert_eq!(port, 80);
    assert_eq!(path, "/status");
    assert!(is_onion);

    let (addr, port, path, is_onion) = parse_url("http://example.onion/api/v1/health").unwrap();
    assert_eq!(addr, "example.onion");
    assert_eq!(port, 80);
    assert_eq!(path, "/api/v1/health");
    assert!(is_onion);

    let (addr, port, path, is_onion) = parse_url("https://example.onion").unwrap();
    assert_eq!(addr, "example.onion");
    assert_eq!(port, 443);
    assert_eq!(path, "/");
    assert!(is_onion);
}

#[test]
fn test_parse_url_regular() {
    let (addr, port, path, is_onion) = parse_url("http://example.com").unwrap();
    assert_eq!(addr, "example.com");
    assert_eq!(port, 80);
    assert_eq!(path, "/");
    assert!(!is_onion);

    let (addr, port, path, is_onion) = parse_url("https://check.torproject.org").unwrap();
    assert_eq!(addr, "check.torproject.org");
    assert_eq!(port, 443);
    assert_eq!(path, "/");
    assert!(!is_onion);

    let (addr, port, path, is_onion) = parse_url("https://httpbin.org/ip").unwrap();
    assert_eq!(addr, "httpbin.org");
    assert_eq!(port, 443);
    assert_eq!(path, "/ip");
    assert!(!is_onion);

    let (addr, port, path, is_onion) = parse_url("http://example.com:8080/api").unwrap();
    assert_eq!(addr, "example.com");
    assert_eq!(port, 8080);
    assert_eq!(path, "/api");
    assert!(!is_onion);
}

#[test]
fn url_errors() {
    assert_eq!(parse_url("http://:80/x"), Err(UrlError::EmptyAddress));
    assert_eq!(parse_url("example.com:99999"), Err(UrlError::InvalidPort));
    assert_eq!(parse_url("example.com:http"), Err(UrlError::InvalidPort));
    assert_eq!(parse_url("example.com:"), Err(UrlError::InvalidPort));
    assert_eq!(parse_url("example.com:+81").unwrap().1, 81);
    assert_eq!(parse_url("example.com:65535").unwrap().1, 65535);
}
