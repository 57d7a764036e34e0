use heavy::headers::{
    client_ip, cookie_values, filter_headers, is_subresource_request, parse_forwarded_for,
    user_agent,
};
use heavy::ip::IpAddr;
use hyper::header::{self, HeaderMap, HeaderValue};

fn header_names(headers: &HeaderMap) -> Vec<String> {
    let mut names: Vec<String> = filter_headers(headers)
        .into_iter()
        .map(|(name, _)| name)
        .collect();
    names.sort();
    names
}

/// The usual text of an address.
fn text(ip: IpAddr) -> String {
    match ip {
        IpAddr::V4(octets) => ipnet::Ipv4Net::new(octets.into(), 32).unwrap().addr().to_string(),
        IpAddr::V6(octets) => ipnet::Ipv6Net::new(octets.into(), 128).unwrap().addr().to_string(),
    }
}

#[test]
fn filters_all_hop_by_hop_headers() {
    let mut headers = HeaderMap::new();
    headers.insert(header::CONNECTION, "close".parse().unwrap());
    headers.insert("keep-alive", "timeout=5".parse().unwrap());
    headers.insert(header::PROXY_AUTHENTICATE, "Basic".parse().unwrap());
    headers.insert(header::PROXY_AUTHORIZATION, "Basic abc".parse().unwrap());
    headers.insert(header::TE, "trailers".parse().unwrap());
    headers.insert(header::TRAILER, "Expires".parse().unwrap());
    headers.insert(header::TRANSFER_ENCODING, "chunked".parse().unwrap());
    headers.insert(header::UPGRADE, "websocket".parse().unwrap());

    assert!(header_names(&headers).is_empty());
}

#[test]
fn mixed_hop_by_hop_and_regular() {
    let mut headers = HeaderMap::new();
    headers.insert(header::ACCEPT, "*/*".parse().unwrap());
    headers.insert(header::CONNECTION, "close".parse().unwrap());
    headers.insert(header::HOST, "localhost".parse().unwrap());
    headers.insert(header::TRANSFER_ENCODING, "chunked".parse().unwrap());
    headers.insert(header::USER_AGENT, "curl/8.0".parse().unwrap());
    headers.insert("x-real-ip", "127.0.0.1".parse().unwrap());

    assert_eq!(
        header_names(&headers),
        vec!["accept", "host", "user-agent", "x-real-ip"]
    );
}

#[test]
fn filters_connection_nominated_headers() {
    let mut headers = HeaderMap::new();
    headers.insert(header::CONNECTION, "x-foo, x-baz".parse().unwrap());
    headers.insert("x-foo", "1".parse().unwrap());
    headers.insert("x-bar", "2".parse().unwrap());
    headers.insert("x-baz", "3".parse().unwrap());

    assert_eq!(header_names(&headers), vec!["x-bar"]);
}

#[test]
fn nominated_names_are_read_leniently() {
    let mut headers = HeaderMap::new();
    headers.append(header::CONNECTION, HeaderValue::from_bytes(b"x-hidden\xff").unwrap());
    headers.append(header::CONNECTION, "X-Foo,, not a name ,\tx-bar".parse().unwrap());
    headers.append(header::CONNECTION, "x-baz".parse().unwrap());
    headers.append("x-foo", "1".parse().unwrap());
    headers.append("x-bar", "2".parse().unwrap());
    headers.append("x-baz", "3".parse().unwrap());
    headers.append("x-hidden", "4".parse().unwrap());
    headers.append("name", "5".parse().unwrap());
    assert_eq!(header_names(&headers), vec!["name", "x-hidden"]);
}

#[test]
fn values_pass_unchanged_and_in_order() {
    let mut headers = HeaderMap::new();
    headers.append("x-one", "b".parse().unwrap());
    headers.append("x-one", HeaderValue::from_bytes(b"\xff").unwrap());
    headers.append("x-one", "a".parse().unwrap());
    let once = filter_headers(&headers);
    assert_eq!(
        once,
        vec![
            ("x-one".to_string(), b"b".to_vec()),
            ("x-one".to_string(), vec![0xff]),
            ("x-one".to_string(), b"a".to_vec()),
        ]
    );

    // What one proxy passes on, the next one does too
    let mut again = HeaderMap::new();
    for (name, value) in &once {
        let name: header::HeaderName = name.parse().unwrap();
        again.append(name, HeaderValue::from_bytes(value).unwrap());
    }
    assert_eq!(filter_headers(&again), once);
}

#[test]
fn cookie_values_from_single_header() {
    let mut headers = HeaderMap::new();
    headers.append(
        header::COOKIE,
        "foo=bar; _heavy-token=pass; baz=qux".parse().unwrap(),
    );
    let vals = cookie_values(&headers, "_heavy-token");
    assert_eq!(vals, vec!["pass"]);
}

#[test]
fn cookie_values_from_multiple_headers() {
    let mut headers = HeaderMap::new();
    headers.append(header::COOKIE, "foo=bar".parse().unwrap());
    headers.append(header::COOKIE, "_heavy-token=abc".parse().unwrap());
    let vals = cookie_values(&headers, "_heavy-token");
    assert_eq!(vals, vec!["abc"]);
}

#[test]
fn cookie_values_missing() {
    let mut headers = HeaderMap::new();
    headers.append(
        header::COOKIE,
        "foo=bar; baz=qux; _heavy-token-extra=1".parse().unwrap(),
    );
    let vals = cookie_values(&headers, "_heavy-token");
    assert!(vals.is_empty());
}

#[test]
fn cookie_values_in_all_their_forms() {
    let mut headers = HeaderMap::new();
    headers.append(header::COOKIE, "a=1;a=2=3 ; a; a=;A=4".parse().unwrap());
    headers.append(header::COOKIE, HeaderValue::from_bytes(b"a=5\xff").unwrap());
    headers.append(header::COOKIE, "a =6;\ta=7".parse().unwrap());
    assert_eq!(cookie_values(&headers, "a"), vec!["1", "2=3", "", "7"]);
    assert_eq!(cookie_values(&headers, "a "), vec!["6"]);
    assert!(cookie_values(&HeaderMap::new(), "a").is_empty());
}

#[test]
fn resource_only_on_navigate() {
    let sec_fetch_mode = |val: &str| -> HeaderMap {
        let mut result = HeaderMap::new();
        result.insert("sec-fetch-mode", val.parse().unwrap());
        result
    };
    for val in ["cors", "no-cors", "same-origin", "websocket"] {
        assert!(is_subresource_request(&sec_fetch_mode(val)));
    }
    assert!(!is_subresource_request(&sec_fetch_mode("navigate")));
}

#[test]
fn assume_resource_without_fetch_mode() {
    assert!(!is_subresource_request(&HeaderMap::new()));
}

#[test]
fn unreadable_fetch_mode_is_none() {
    let mut headers = HeaderMap::new();
    headers.insert("sec-fetch-mode", HeaderValue::from_bytes(b"cors\xff").unwrap());
    assert!(!is_subresource_request(&headers));
}

const LOCALHOST: IpAddr = IpAddr::V4([127, 0, 0, 1]);

#[test]
fn client_ip_from_x_real_ip() {
    let mut headers = HeaderMap::new();
    headers.insert("X-Real-IP", "10.0.0.1".parse().unwrap());
    assert_eq!(text(client_ip(&headers, LOCALHOST)), "10.0.0.1");
}

#[test]
fn client_ip_from_x_forwarded_for() {
    let mut headers = HeaderMap::new();
    headers.insert(
        "X-Forwarded-For",
        "10.0.0.1, 12.34.56.78, 98.76.54.32".parse().unwrap(),
    );
    assert_eq!(text(client_ip(&headers, LOCALHOST)), "10.0.0.1");
}

#[test]
fn client_ip_from_forwarded() {
    let mut headers = HeaderMap::new();
    headers.insert(
        "Forwarded",
        "for=10.0.0.1;proto=http;by=12.34.56.78".parse().unwrap(),
    );
    assert_eq!(text(client_ip(&headers, LOCALHOST)), "10.0.0.1");
}

#[test]
fn client_ip_forwarded_ipv6_bracketed() {
    let mut headers = HeaderMap::new();
    headers.insert("Forwarded", "for=\"[fd00::1]\"".parse().unwrap());
    assert_eq!(text(client_ip(&headers, LOCALHOST)), "fd00::1");
}

#[test]
fn client_ip_falls_back_to_peer() {
    let peer = IpAddr::V4([10, 0, 0, 1]);
    assert_eq!(text(client_ip(&HeaderMap::new(), peer)), "10.0.0.1");
}

#[test]
fn client_ip_precedence() {
    let mut headers = HeaderMap::new();
    headers.insert("Forwarded", "for=10.0.0.3".parse().unwrap());
    assert_eq!(text(client_ip(&headers, LOCALHOST)), "10.0.0.3");
    headers.insert("X-Forwarded-For", "10.0.0.2".parse().unwrap());
    assert_eq!(text(client_ip(&headers, LOCALHOST)), "10.0.0.2");
    headers.insert("X-Real-IP", " 10.0.0.1 ".parse().unwrap());
    assert_eq!(text(client_ip(&headers, LOCALHOST)), "10.0.0.1");
    headers.insert("X-Real-IP", "unknown".parse().unwrap());
    assert_eq!(text(client_ip(&headers, LOCALHOST)), "10.0.0.2");
    headers.insert("X-Forwarded-For", ", 10.0.0.2".parse().unwrap());
    assert_eq!(text(client_ip(&headers, LOCALHOST)), "10.0.0.3");
    headers.insert("Forwarded", "for=_hidden".parse().unwrap());
    assert_eq!(text(client_ip(&headers, LOCALHOST)), "127.0.0.1");
}

#[test]
fn forwarded_directives() {
    let parse = |value: &str| parse_forwarded_for(value).map(text);
    let some = |value: &str| Some(value.to_string());
    assert_eq!(parse("for=192.0.2.1"), some("192.0.2.1"));
    assert_eq!(parse("FOR=\"192.0.2.1\""), some("192.0.2.1"));
    assert_eq!(parse("for=192.0.2.1:8080"), some("192.0.2.1"));
    assert_eq!(parse("for=\"[2001:db8::1]:8080\""), some("2001:db8::1"));
    assert_eq!(parse("for=2001:db8::1"), some("2001:db8::1"));
    assert_eq!(parse("proto=http; for=192.0.2.1"), some("192.0.2.1"));
    // Only the first directive counts, and a parameter without a value ends the search
    assert_eq!(parse("for=unknown, for=192.0.2.1"), None);
    assert_eq!(parse("for=unknown, for=10.0.0.1"), None);
    assert_eq!(parse("for=192.0.2.1, for=10.0.0.1"), some("192.0.2.1"));
    assert_eq!(parse("secure, for=192.0.2.1"), None);
    assert_eq!(parse("for=nobody:80, for=192.0.2.1"), None);
    assert_eq!(parse("for=\"[nobody]\", for=192.0.2.1"), None);
    assert_eq!(parse("for=\"[::1\""), None);
    assert_eq!(parse(""), None);
}

#[test]
fn user_agent_of_a_request() {
    let mut headers = HeaderMap::new();
    assert_eq!(user_agent(&headers), "");
    headers.append("User-Agent", "curl/8.0".parse().unwrap());
    headers.append("User-Agent", "other".parse().unwrap());
    assert_eq!(user_agent(&headers), "curl/8.0");
    headers.insert("User-Agent", HeaderValue::from_bytes(b"caf\xe9").unwrap());
    assert_eq!(user_agent(&headers), "");
}

#[test]
fn names_that_cannot_be_looked_up_pass() {
    let mut headers = HeaderMap::new();
    let name = header::HeaderName::from_lowercase(b"a\"b").unwrap();
    headers.append(name, "1".parse().unwrap());
    headers.append(header::CONNECTION, "a\"b, x-foo".parse().unwrap());
    headers.append("x-foo", "2".parse().unwrap());
    assert_eq!(filter_headers(&headers), vec![("a\"b".to_string(), b"1".to_vec())]);
    assert_eq!(user_agent(&headers), "");
}
