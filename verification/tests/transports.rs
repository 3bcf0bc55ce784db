//! The encrypted transports and proxies.
use base64::Engine;
use rolodex::addr::{IpAddress, SocketAddress};
use rolodex::doh_h3_server::{
    alpn_protocols as h3_alpn_protocols, decode_dns_param, dns_param, finish_body, grow_body,
    read_query, Asked, Method,
};
use rolodex::doh_proxy::{
    check_connect_response, connect_request, doh_request, doh_response, parse_proxy_addr,
    socks_authenticated, socks_counted, socks_greeting, socks_method, socks_reply, socks_request,
    ProxyConfig, ProxyError, ProxyMode, ProxySettings, Remainder,
};
use rolodex::doh_server::{alt_svc, cache_control, extract_min_ttl, get_query, GetError};
use rolodex::doq_server::check_length;
use rolodex::dot_server::{accepts_length, alpn_protocols as dot_alpn_protocols, ALPN};
use rolodex::framing::{announced_length, frame};

#[test]
fn alpn_advertises_exactly_h3() {
    assert_eq!(h3_alpn_protocols(), vec![b"h3".to_vec()]);
}

#[test]
fn the_dns_parameter_is_found_among_others() {
    assert_eq!(dns_param(Some("dns=AAAB")).as_deref(), Some("AAAB"));
    assert_eq!(
        dns_param(Some("ct=application/dns-message&dns=AAAB")).as_deref(),
        Some("AAAB")
    );
    assert_eq!(dns_param(Some("ct=application/dns-message")), None);
    assert_eq!(dns_param(Some("notdns=AAAB")), None);
    assert_eq!(dns_param(None), None);
}

#[test]
fn base64url_is_decoded_padded_or_not() {
    let unpadded = base64::engine::general_purpose::URL_SAFE_NO_PAD.encode([0u8, 1]);
    assert_eq!(decode_dns_param(&unpadded), Some(vec![0u8, 1]));
    assert_eq!(
        decode_dns_param(&format!("{}=", unpadded)),
        Some(vec![0u8, 1])
    );
}

#[test]
fn an_undecodable_or_empty_parameter_is_refused() {
    assert_eq!(decode_dns_param("++//"), None);
    assert_eq!(decode_dns_param(""), None);
    assert_eq!(decode_dns_param("!!!!"), None);
}

#[test]
fn the_first_dns_parameter_counts() {
    assert_eq!(dns_param(Some("dns=AA&dns=BB")).as_deref(), Some("AA"));
    assert_eq!(dns_param(Some("dns")), None);
    assert_eq!(dns_param(Some("dns=a=b")).as_deref(), Some("a=b"));
}

#[test]
fn a_request_is_read_by_path_then_method() {
    match read_query("/dns-query", Method::Get, Some("dns=AAE")) {
        Ok(Asked::Query(q)) => assert_eq!(q, vec![0u8, 1]),
        other => panic!("unexpected {other:?}"),
    }
    assert!(matches!(
        read_query("/dns-query", Method::Post, None),
        Ok(Asked::Body)
    ));
    assert_eq!(read_query("/", Method::Other, None).unwrap_err(), 404);
    assert_eq!(read_query("/dns-query", Method::Other, None).unwrap_err(), 405);
    assert_eq!(read_query("/dns-query", Method::Get, None).unwrap_err(), 400);
    assert_eq!(
        read_query("/dns-query", Method::Get, Some("dns=!")).unwrap_err(),
        400
    );
}

#[test]
fn a_body_grows_up_to_the_longest_message() {
    let mut body = vec![1u8; 65_530];
    assert_eq!(grow_body(&mut body, &[2; 5]), Ok(()));
    assert_eq!(body.len(), 65_535);
    assert_eq!(grow_body(&mut body, &[3]), Err(413));
    assert_eq!(body.len(), 65_535);
    assert_eq!(finish_body(vec![7]), Ok(vec![7]));
    assert_eq!(finish_body(Vec::new()), Err(400));
}

#[test]
fn test_parse_proxy_addr() {
    assert_eq!(parse_proxy_addr("http://proxy:8080").unwrap(), "proxy:8080");
    assert_eq!(
        parse_proxy_addr("https://proxy:3128").unwrap(),
        "proxy:3128"
    );
    assert_eq!(
        parse_proxy_addr("socks5://127.0.0.1:1080").unwrap(),
        "127.0.0.1:1080"
    );
    assert_eq!(parse_proxy_addr("proxy.local").unwrap(), "proxy.local:8080");
}

#[test]
fn a_scheme_is_stripped_as_often_as_it_stands() {
    assert_eq!(
        parse_proxy_addr("http://http://proxy").unwrap(),
        "proxy:8080"
    );
}

#[test]
fn test_proxy_mode_from_str() {
    assert!(matches!(ProxyMode::parse("connect"), ProxyMode::Connect));
    assert!(matches!(ProxyMode::parse("socks5"), ProxyMode::Socks5));
    assert!(matches!(ProxyMode::parse("doh"), ProxyMode::Doh));
    assert!(matches!(ProxyMode::parse("SOCKS5"), ProxyMode::Socks5));
    assert!(matches!(ProxyMode::parse("unknown"), ProxyMode::Connect));
}

#[test]
fn test_proxy_mode_as_str() {
    assert_eq!(ProxyMode::Connect.as_str(), "connect");
    assert_eq!(ProxyMode::Socks5.as_str(), "socks5");
    assert_eq!(ProxyMode::Doh.as_str(), "doh");
}

#[test]
fn modes_round_trip_through_their_names() {
    for mode in [ProxyMode::Connect, ProxyMode::Socks5, ProxyMode::Doh] {
        assert_eq!(ProxyMode::parse(mode.as_str()), mode);
    }
}

#[test]
fn test_proxy_config_from_config() {
    let cfg = ProxySettings {
        url: "socks5://127.0.0.1:1080".to_string(),
        auth: Some("user:pass".to_string()),
        mode: "socks5".to_string(),
    };
    let runtime: ProxyConfig = ProxyConfig::from(&cfg);
    assert_eq!(runtime.url, "socks5://127.0.0.1:1080");
    assert_eq!(runtime.auth.as_deref(), Some("user:pass"));
    assert_eq!(runtime.mode, ProxyMode::Socks5);
}

fn upstream() -> SocketAddress {
    SocketAddress::new(IpAddress::V4(0x0808_0808), 53)
}

#[test]
fn a_tunnel_is_requested_with_credentials() {
    assert_eq!(
        connect_request(upstream(), None),
        "CONNECT 8.8.8.8:53 HTTP/1.1\r\nHost: 8.8.8.8:53\r\n\r\n"
    );
    assert_eq!(
        connect_request(upstream(), Some("user:pass")),
        "CONNECT 8.8.8.8:53 HTTP/1.1\r\nHost: 8.8.8.8:53\r\n\
         Proxy-Authorization: Basic dXNlcjpwYXNz\r\n\r\n"
    );
}

#[test]
fn a_tunnel_is_open_when_the_proxy_says_so() {
    assert!(check_connect_response(b"HTTP/1.1 200 OK\r\n\r\n").is_ok());
    match check_connect_response(b" HTTP/1.1 403 Forbidden\r\n\r\n") {
        Err(e) => assert_eq!(
            e.message(),
            "proxy CONNECT failed: HTTP/1.1 403 Forbidden"
        ),
        Ok(()) => panic!("not a tunnel"),
    }
    // What is not UTF-8 is replaced.
    match check_connect_response(&[0xff, b'n', b'o']) {
        Err(e) => assert_eq!(e.message(), "proxy CONNECT failed: \u{fffd}no"),
        Ok(()) => panic!("not a tunnel"),
    }
}

#[test]
fn the_socks_conversation_follows_the_rfcs() {
    assert_eq!(socks_greeting(true), vec![5, 2, 0, 2]);
    assert_eq!(socks_greeting(false), vec![5, 1, 0]);
    assert!(matches!(socks_method([5, 0], None), Ok(None)));
    match socks_method([5, 2], Some("user:pa:ss")) {
        Ok(Some(octets)) => assert_eq!(octets, b"\x01\x04user\x05pa:ss".to_vec()),
        other => panic!("unexpected {other:?}"),
    }
    match socks_method([5, 2], Some("user")) {
        Ok(Some(octets)) => assert_eq!(octets, b"\x01\x04user\x00".to_vec()),
        other => panic!("unexpected {other:?}"),
    }
    assert!(socks_authenticated([1, 0]).is_ok());
    assert_eq!(socks_request(upstream()), vec![5, 1, 0, 1, 8, 8, 8, 8, 0, 53]);
    assert_eq!(
        socks_request(SocketAddress::new(IpAddress::V6(1), 853)),
        vec![5, 1, 0, 4, 0, 0, 0, 0, 0, 0, 0, 0, 0, 0, 0, 0, 0, 0, 0, 1, 3, 85]
    );
    assert_eq!(socks_reply([5, 0, 0, 1]).unwrap(), Remainder::Octets(6));
    assert_eq!(socks_reply([5, 0, 0, 4]).unwrap(), Remainder::Octets(18));
    assert_eq!(socks_reply([5, 0, 0, 3]).unwrap(), Remainder::Counted);
    assert_eq!(socks_counted(9), 11);
}

fn said<T: std::fmt::Debug>(r: Result<T, ProxyError>) -> String {
    r.unwrap_err().message()
}

#[test]
fn every_socks_failure_has_its_message() {
    assert_eq!(
        said(socks_method([4, 0], None)),
        "SOCKS5: invalid version in greeting response: 4"
    );
    assert_eq!(
        said(socks_method([5, 2], None)),
        "SOCKS5 proxy requires authentication"
    );
    assert_eq!(
        said(socks_method([5, 0xff], None)),
        "SOCKS5: no acceptable authentication method"
    );
    assert_eq!(
        said(socks_method([5, 1], None)),
        "SOCKS5: unsupported authentication method: 1"
    );
    assert_eq!(
        said(socks_authenticated([1, 3])),
        "SOCKS5: authentication failed (status 3)"
    );
    assert_eq!(
        said(socks_reply([4, 0, 0, 1])),
        "SOCKS5: invalid version in connect response"
    );
    for (code, meaning) in [
        (1, "general SOCKS server failure"),
        (2, "connection not allowed by ruleset"),
        (3, "network unreachable"),
        (4, "host unreachable"),
        (5, "connection refused"),
        (6, "TTL expired"),
        (7, "command not supported"),
        (8, "address type not supported"),
        (9, "unknown error"),
    ] {
        assert_eq!(
            said(socks_reply([5, code, 0, 1])),
            format!("SOCKS5 CONNECT failed: {meaning} (code {code})")
        );
    }
    assert_eq!(
        said(socks_reply([5, 0, 0, 2])),
        "SOCKS5: unknown address type in response: 2"
    );
}

#[test]
fn a_query_is_posted_through_the_proxy() {
    assert_eq!(
        doh_request(upstream(), 33, Some("user:pass")),
        "POST https://8.8.8.8:53/dns-query HTTP/1.1\r\nHost: 8.8.8.8:53\r\n\
         Content-Type: application/dns-message\r\nContent-Length: 33\r\n\
         Accept: application/dns-message\r\n\
         Proxy-Authorization: Basic dXNlcjpwYXNz\r\nConnection: close\r\n\r\n"
    );
}

#[test]
fn the_body_of_a_proxied_response_follows_the_blank_line() {
    assert_eq!(
        doh_response(b"HTTP/1.1 200 OK\r\nA: b\r\n\r\n\x01\x02\xff").unwrap(),
        vec![1, 2, 0xff]
    );
    // A header that is no text does not move the body.
    assert_eq!(
        doh_response(b"HTTP/1.1 200 OK\r\nA: \xff\r\n\r\n\x01\x02\x03").unwrap(),
        vec![1, 2, 3]
    );
    assert_eq!(
        said(doh_response(b"HTTP/1.1 200 OK\r\n")),
        "DoH proxy: malformed HTTP response"
    );
    assert_eq!(
        said(doh_response(b"HTTP/1.1 502 Bad Gateway\r\n\r\nx")),
        "DoH proxy request failed: HTTP/1.1 502 Bad Gateway"
    );
    assert_eq!(
        said(doh_response(b"HTTP/1.1 200 OK\r\n\r\n")),
        "DoH proxy: empty response body"
    );
}

#[test]
fn test_extract_min_ttl_empty() {
    assert_eq!(extract_min_ttl(&[]), 0);
}

#[test]
fn test_extract_min_ttl_invalid() {
    assert_eq!(extract_min_ttl(&[0, 1, 2]), 0);
}

#[test]
fn headers_say_how_long_and_where() {
    assert_eq!(alt_svc(443), "h3=\":443\"; ma=86400");
    assert_eq!(cache_control(300), "max-age=300");
}

#[test]
fn a_get_request_carries_base64url() {
    assert_eq!(get_query(Some("AAE")), Ok(vec![0, 1]));
    assert_eq!(get_query(None), Err(GetError::Missing));
    assert_eq!(get_query(Some("AAE=")), Err(GetError::Encoding));
    assert_eq!(GetError::Missing.message(), "missing 'dns' query parameter");
    assert_eq!(GetError::Encoding.message(), "invalid base64url encoding");
}

#[test]
fn test_doq_module_exists() {
    assert_eq!(check_length(1), Ok(1));
    assert_eq!(check_length(65_535), Ok(65_535));
    assert_eq!(
        check_length(0),
        Err("invalid message length: 0".to_string())
    );
}

#[test]
fn test_alpn_token_is_rfc7858_dot() {
    assert_eq!(&ALPN, &[0x64u8, 0x6f, 0x74]);
    assert_eq!(ALPN.len(), 3);
}

#[test]
fn test_alpn_protocols_advertises_exactly_dot() {
    assert_eq!(dot_alpn_protocols(), vec![b"dot".to_vec()]);
}

#[test]
fn an_empty_message_ends_a_session() {
    assert!(!accepts_length(0));
    assert!(accepts_length(12));
}

#[test]
fn a_frame_announces_what_it_holds() {
    for n in [0usize, 1, 255, 256, 65_535] {
        let message = vec![7u8; n];
        let framed = frame(&message);
        assert_eq!(announced_length(&framed), n);
        assert_eq!(&framed[2..], &message[..]);
    }
}
