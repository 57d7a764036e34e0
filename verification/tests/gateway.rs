use chacha20::cipher::{KeyIvInit, StreamCipher};
use heavy::challenge::{Fingerprint, Solution};
use heavy::clock::ClockReading;
use heavy::gateway::{
    bad_gateway, challenge_page, load_change, log_entry, not_found, route, token_reply,
    worker_script, Action, ChallengeConfig, Forwarding, LoadChange, Reply, RequestHead, Route,
};
use heavy::ip::IpAddr;
use heavy::whitelist::{Whitelist, WhitelistParams};
use hyper::header::HeaderMap;

const CLIENT: IpAddr = IpAddr::V4([10, 0, 0, 1]);
const PEER: IpAddr = IpAddr::V4([127, 0, 0, 1]);
const AGENT: &str = "some-client/1.0";
const NOW: Option<ClockReading> = Some(ClockReading { secs: 1_000, nanos: 234_567_890 });

fn config(challenge_all: bool) -> ChallengeConfig {
    let rules = WhitelistParams { paths: vec!["^/free$".into()], ips: vec!["10.9.0.0/16".into()] };
    let whitelist = Whitelist::new(&rules).ok().unwrap();
    ChallengeConfig::new("some-passphrase", 6, challenge_all, 3600, whitelist)
}

fn headers(pairs: &[(&'static str, &str)]) -> HeaderMap {
    let mut map = HeaderMap::new();
    map.insert("x-real-ip", "10.0.0.1".parse().unwrap());
    map.insert("user-agent", AGENT.parse().unwrap());
    for (name, value) in pairs {
        map.append(*name, value.parse().unwrap());
    }
    map
}

fn head<'a>(method: &'a str, path: &'a str, headers: &'a HeaderMap) -> RequestHead<'a> {
    RequestHead { method, path, path_and_query: Some(path), headers, peer_ip: PEER }
}

fn is_challenged(cc: &ChallengeConfig, high_load: bool, path: &str, headers: &HeaderMap) -> bool {
    match cc.decide_at(high_load, NOW, &head("GET", path, headers)) {
        Action::Challenge { .. } => true,
        Action::Forward(_) => false,
        Action::Serve(route) => panic!("{route:?}"),
    }
}

fn solve_puzzle(puzzle: &str) -> Solution {
    let parts: Vec<&str> = puzzle.splitn(3, '.').collect();
    let nonce: [u8; 32] = hex::decode(parts[2]).unwrap().try_into().unwrap();
    let difficulty: u32 = parts[1].parse().unwrap();
    let mut offsets = Vec::new();
    let mut cipher = chacha20::ChaCha8::new((&nonce).into(), &Default::default());
    let mut offset = 0;
    while offsets.len() < 10 {
        let mut word = [0u8; 4];
        cipher.apply_keystream(&mut word);
        if u32::from_le_bytes(word).leading_zeros() >= difficulty {
            offsets.push(offset);
        }
        offset += 1;
    }
    Solution { timestamp: parts[0].parse().unwrap(), offsets }
}

#[test]
fn own_routes() {
    assert_eq!(route("GET", "/__heavy/worker.js"), Route::Worker);
    assert_eq!(route("POST", "/__heavy/submit"), Route::Submit);
    assert_eq!(route("POST", "/__heavy/worker.js"), Route::Missing);
    assert_eq!(route("GET", "/__heavy/submit"), Route::Missing);
    assert_eq!(route("GET", "/__heavy/"), Route::Missing);

    let cc = config(true);
    let map = headers(&[]);
    for (method, path, expected) in [
        ("GET", "/__heavy/worker.js", Route::Worker),
        ("POST", "/__heavy/submit", Route::Submit),
        ("GET", "/__heavy/anything", Route::Missing),
    ] {
        match cc.decide_at(true, NOW, &head(method, path, &map)) {
            Action::Serve(route) => assert_eq!(route, expected),
            action => panic!("{action:?}"),
        }
    }
    // A path that only looks like it
    assert!(is_challenged(&cc, true, "/__heavy", &map));
    assert!(is_challenged(&cc, true, "/x/__heavy/submit", &map));
}

#[test]
fn challenges_depend_on_load() {
    let map = headers(&[]);
    assert!(!is_challenged(&config(false), false, "/", &map));
    assert!(is_challenged(&config(false), true, "/", &map));
    assert!(is_challenged(&config(true), false, "/", &map));
    assert!(is_challenged(&config(true), true, "/", &map));
}

#[test]
fn exemptions() {
    let cc = config(true);
    assert!(!is_challenged(&cc, true, "/free", &headers(&[])));
    assert!(!is_challenged(&cc, true, "/", &headers(&[("sec-fetch-mode", "cors")])));
    assert!(is_challenged(&cc, true, "/", &headers(&[("sec-fetch-mode", "navigate")])));
    let mut map = headers(&[]);
    map.insert("x-real-ip", "10.9.1.2".parse().unwrap());
    assert!(!is_challenged(&cc, true, "/", &map));
}

#[test]
fn puzzle_is_for_the_client() {
    let cc = config(true);
    let map = headers(&[]);
    match cc.decide_at(false, NOW, &head("GET", "/", &map)) {
        Action::Challenge { puzzle } => {
            assert_eq!(puzzle, cc.auth.make_puzzle_at(1_000, CLIENT, AGENT));
        }
        action => panic!("{action:?}"),
    }
    match cc.decide(false, &head("GET", "/", &map)) {
        Action::Challenge { puzzle } => assert!(puzzle.contains(".6.")),
        action => panic!("{action:?}"),
    }
}

#[test]
fn solved_challenge_opens_the_way() {
    let cc = config(true);
    let map = headers(&[]);
    let puzzle = match cc.decide_at(true, NOW, &head("GET", "/", &map)) {
        Action::Challenge { puzzle } => puzzle,
        action => panic!("{action:?}"),
    };
    let reply = cc.submit_at(NOW, &map, PEER, Some(solve_puzzle(&puzzle)));
    assert_eq!(reply.status, 200);
    assert_eq!(reply.body, "");
    assert_eq!(reply.headers.len(), 1);
    let token = cc.auth.mint_token(&Fingerprint::new(1_000, CLIENT, AGENT));
    assert_eq!(
        reply.headers[0],
        (
            "Set-Cookie".to_string(),
            format!("_heavy-token={token}; Path=/; Max-Age=3600; SameSite=Lax")
        )
    );

    // The browser sends the cookie back, among others
    let pair = reply.headers[0].1.split(';').next().unwrap();
    let with_cookie = headers(&[("cookie", &format!("a=b; {pair}; c=d"))]);
    assert!(!is_challenged(&cc, true, "/", &with_cookie));
    let with_both = headers(&[("cookie", "_heavy-token=stale"), ("cookie", pair)]);
    assert!(!is_challenged(&cc, true, "/", &with_both));

    // Another client cannot use it
    let mut stolen = with_cookie.clone();
    stolen.insert("x-real-ip", "10.0.0.2".parse().unwrap());
    assert!(is_challenged(&cc, true, "/", &stolen));

    // Nor can anyone once it has expired
    let late = Some(ClockReading { secs: 4_600, nanos: 1 });
    assert!(matches!(
        cc.decide_at(true, late, &head("GET", "/", &with_cookie)),
        Action::Challenge { .. }
    ));
    let in_time = Some(ClockReading { secs: 4_600, nanos: 0 });
    assert!(matches!(
        cc.decide_at(true, in_time, &head("GET", "/", &with_cookie)),
        Action::Forward(_)
    ));
}

fn is_plain(reply: &Reply, status: u16, body: &str) -> bool {
    reply.status == status && reply.headers.is_empty() && reply.body == body
}

#[test]
fn useless_submissions() {
    let cc = config(true);
    let map = headers(&[]);
    let solution = Solution { timestamp: 1_000, offsets: (0..10).collect() };
    assert!(is_plain(&cc.submit_at(NOW, &map, PEER, Some(solution)), 400, "400 Bad Request\n"));
    assert!(is_plain(&cc.submit_at(NOW, &map, PEER, None), 400, "400 Bad Request\n"));
    assert!(is_plain(&cc.submit(&map, PEER, None), 400, "400 Bad Request\n"));
}

#[test]
fn replies() {
    assert!(is_plain(&not_found(), 404, "404 Not Found\n"));
    assert!(is_plain(&bad_gateway(), 502, "502 Bad Gateway\n"));
    assert!(is_plain(&token_reply(None, 5), 400, "400 Bad Request\n"));

    let page = challenge_page("<p>".to_string());
    assert_eq!((page.status, &page.body[..]), (200, "<p>"));
    assert_eq!(
        page.headers,
        vec![
            ("Content-Type".to_string(), "text/html; charset=utf-8".to_string()),
            ("Cache-Control".to_string(), "no-store".to_string()),
        ]
    );

    let script = worker_script("run();");
    assert_eq!((script.status, &script.body[..]), (200, "run();"));
    assert_eq!(
        script.headers,
        vec![("Content-Type".to_string(), "application/javascript".to_string())]
    );

    let token = token_reply(Some("t".to_string()), 5);
    assert_eq!(token.headers[0].1, "_heavy-token=t; Path=/; Max-Age=5; SameSite=Lax");
}

fn forwarded(head: &RequestHead) -> Forwarding {
    match config(false).decide_at(false, NOW, head) {
        Action::Forward(f) => f,
        action => panic!("{action:?}"),
    }
}

#[test]
fn requests_are_passed_on_and_logged() {
    let map = headers(&[("connection", "x-secret"), ("x-secret", "1"), ("accept", "*/*")]);
    let f = forwarded(&RequestHead {
        method: "BREW",
        path: "/pot",
        path_and_query: Some("/pot?milk=no"),
        headers: &map,
        peer_ip: PEER,
    });
    assert_eq!(f.method, "BREW");
    assert_eq!(f.target, "/pot?milk=no");
    assert_eq!(f.received, NOW);
    let mut names: Vec<&str> = f.headers.iter().map(|h| &h.0[..]).collect();
    names.sort();
    assert_eq!(names, vec!["accept", "user-agent", "x-real-ip"]);

    let entry = log_entry(f, Some(418), 12, 1.5_f64.to_bits(), true);
    assert_eq!((entry.timestamp_secs, entry.timestamp_millis), (1_000, 234));
    assert_eq!((&entry.method[..], &entry.path[..]), ("BREW", "/pot?milk=no"));
    assert_eq!((entry.status, entry.latency_ms), (418, 12));
    assert_eq!(f64::from_bits(entry.average_latency), 1.5);
    assert!(entry.high_load);
    let mut logged = entry.headers;
    logged.sort();
    assert_eq!(logged[0], ("accept".to_string(), "*/*".to_string()));
    assert_eq!(logged.len(), 3);
}

#[test]
fn requests_without_path_or_answer() {
    let map = headers(&[]);
    let f = forwarded(&RequestHead {
        method: "OPTIONS",
        path: "",
        path_and_query: None,
        headers: &map,
        peer_ip: PEER,
    });
    assert_eq!(f.target, "/");
    let entry = log_entry(Forwarding { received: None, ..f }, None, 1 << 40, 0, false);
    assert_eq!((entry.timestamp_secs, entry.timestamp_millis), (0, 0));
    assert_eq!((entry.status, entry.latency_ms), (502, u32::MAX));
    assert!(!entry.high_load);
}

#[test]
fn load_changes_are_noticed() {
    assert_eq!(load_change(false, true), None);
    assert_eq!(load_change(false, false), None);
    assert_eq!(load_change(true, true), Some(LoadChange::Entering));
    assert_eq!(load_change(true, false), Some(LoadChange::Leaving));
}
