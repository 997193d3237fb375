use dandelion::endpoint::Endpoint;
use dandelion::simplex::{
    check_request, client_request, upgrade_response, Config, SimplexConfig, SimplexRejection,
    SimplexError, SimplexRequest, ENDPOINT_HEADER_KEY,
};

fn config() -> Config {
    SimplexConfig {
        host: "tunnel.example".to_string(),
        path: "/ws".to_string(),
        header_name: "x-secret".to_string(),
        header_value: "s3cret".to_string(),
    }
    .into_config()
}

fn request() -> SimplexRequest {
    SimplexRequest {
        path: "/ws".to_string(),
        secret_value: Some("s3cret".to_string()),
        is_upgrade: true,
        endpoint_value: Some("example.com:443".to_string()),
        websocket_key: Some(b"dGhlIHNhbXBsZSBub25jZQ==".to_vec()),
        websocket_version: Some(b"13".to_vec()),
    }
}

#[test]
fn simplex_accepts_valid_request() {
    assert_eq!(
        check_request(&config(), &request()),
        Ok(Endpoint::Domain("example.com".to_string(), 443))
    );
    // RFC 6455's example key
    let reply = upgrade_response(&request()).ok().unwrap();
    assert_eq!(reply.status, 101);
    assert_eq!(
        reply.headers,
        vec![
            ("connection".to_string(), "upgrade".to_string()),
            ("upgrade".to_string(), "websocket".to_string()),
            ("sec-websocket-accept".to_string(), "s3pPLMBiTxaQ9kYGzzhZRbK+xOo=".to_string()),
        ]
    );
    assert_eq!(reply.body, "switching to websocket protocol");
}

#[test]
fn simplex_rejections_in_order() {
    let c = config();
    let mut r = request();
    r.path = "/other".to_string();
    r.secret_value = None;
    assert_eq!(check_request(&c, &r), Err(SimplexRejection::WrongPath));
    let mut r = request();
    r.secret_value = Some("wrong".to_string());
    assert_eq!(check_request(&c, &r), Err(SimplexRejection::WrongSecret));
    let mut r = request();
    r.is_upgrade = false;
    assert_eq!(check_request(&c, &r), Err(SimplexRejection::NotUpgrade));
    let mut r = request();
    r.endpoint_value = Some("nonsense".to_string());
    assert_eq!(check_request(&c, &r), Err(SimplexRejection::NoEndpoint));
    let mut r = request();
    r.websocket_key = None;
    assert_eq!(upgrade_response(&r).err(), Some(SimplexRejection::MissingWebSocketKey));
    let mut r = request();
    r.websocket_version = Some(b"8".to_vec());
    assert_eq!(upgrade_response(&r).err(), Some(SimplexRejection::UnsupportedWebSocketVersion));
}

#[test]
fn simplex_client_request_headers() {
    let c = config();
    let req = client_request(&c, &Endpoint::Domain("example.com".to_string(), 443)).unwrap();
    assert_eq!(req.uri, "ws://tunnel.example/ws");
    assert_eq!(
        req.headers,
        vec![
            ("x-secret".to_string(), "s3cret".to_string()),
            (ENDPOINT_HEADER_KEY.to_string(), "example.com:443".to_string())
        ]
    );
}

#[test]
fn simplex_rejection_shows_decoy_page() {
    assert_eq!(dandelion::simplex::decoy_body("2024-01-01T00:00:00+00:00"), "Now is 2024-01-01T00:00:00+00:00");
}

#[test]
fn simplex_server_accepts_what_client_sends() {
    let c = config();
    for endpoint in [Endpoint::Domain("example.com".to_string(), 443), Endpoint::parse("[::1]:8080").unwrap()] {
        let sent = client_request(&c, &endpoint).unwrap();
        let seen = SimplexRequest {
            path: "/ws".to_string(),
            secret_value: Some(sent.headers[0].1.clone()),
            is_upgrade: true,
            endpoint_value: Some(sent.headers[1].1.clone()),
            websocket_key: None,
            websocket_version: None,
        };
        assert_eq!(check_request(&c, &seen), Ok(endpoint));
    }
}

#[test]
fn simplex_client_request_refuses_invalid_headers() {
    let e = Endpoint::Domain("example.com".to_string(), 443);
    let mut c = config();
    c.secret_header.0 = "bad header".to_string();
    assert_eq!(client_request(&c, &e).err(), Some(SimplexError::HeaderConfigInvalid));
    let mut c = config();
    c.secret_header.1 = "line\nbreak".to_string();
    assert_eq!(client_request(&c, &e).err(), Some(SimplexError::HeaderConfigInvalid));
    let mut c = config();
    c.secret_header.1 = "tab\tand space are fine".to_string();
    assert!(client_request(&c, &e).is_ok());
    let mut c = config();
    c.host = "bad host".to_string();
    assert_eq!(client_request(&c, &e).err(), Some(SimplexError::HeaderConfigInvalid));
}
