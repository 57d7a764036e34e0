//! What becomes of a request: an answer of the proxy itself, a challenge, or the way upstream.

use crate::access_log::{are_pairs_of, logged, logged_headers, logged_latency, LogEntry};
use crate::challenge::{law_redeemed_token_is_accepted, Authenticator, Solution};
use crate::clock::{epoch_secs, fresh, is_reading, now, whole_secs, ClockReading};
use crate::headers::{
    agent_of, client_address, client_ip, cookie_values, cookies, entries_view, filter_headers,
    forwardable, header_entries, header_text, is_hop_by_hop, is_subresource_request,
    law_just_end_to_end_headers_pass, pair_values,
    subresource_mode, user_agent, values_of, visible_text,
};
use crate::ip::IpAddr;
use crate::numbers::{decimal, digits, hex_text, lemma_digits};
use crate::text::{
    begins_with, chars_of, lemma_first_of_unique, push_text, same_text, split,
    split_once, starts_with, texts, trimmed, white,
};
use crate::whitelist::{exempts, Whitelist};
use hyper::header::{HeaderMap, HeaderValue};
use vstd::prelude::*;

verus! {

// ------------------------------------------------------------------------------------------
// Replies of the proxy itself
// ------------------------------------------------------------------------------------------

/// An answer that does not come from upstream.
#[derive(Debug)]
pub struct Reply {
    pub status: u16,
    pub headers: Vec<(String, String)>,
    pub body: String,
}

/// An answer, as text.
pub struct ReplyView {
    pub status: u16,
    pub headers: Seq<(Seq<char>, Seq<char>)>,
    pub body: Seq<char>,
}

impl View for Reply {
    type V = ReplyView;

    open spec fn view(&self) -> ReplyView {
        ReplyView {
            status: self.status,
            headers: self.headers@.map_values(|h: (String, String)| (h.0@, h.1@)),
            body: self.body@,
        }
    }
}

/// An answer with a status and a body alone.
pub open spec fn plain(status: u16, body: Seq<char>) -> ReplyView {
    ReplyView { status, headers: Seq::empty(), body }
}

/// An answer with a status and a body alone.
fn plain_reply(status: u16, body: &str) -> (r: Reply)
    ensures
        r@ == plain(status, body@),
{
    let r = Reply { status, headers: Vec::new(), body: body.to_owned() };
    assert(r@.headers =~= Seq::empty());
    r
}

/// The answer to a request in the proxy's own namespace that has no route.
pub fn not_found() -> (r: Reply)
    ensures
        r@ == plain(404, "404 Not Found\n"@),
{
    plain_reply(404, "404 Not Found\n")
}

/// The answer to a submission that earns no token.
pub fn bad_request() -> (r: Reply)
    ensures
        r@ == plain(400, "400 Bad Request\n"@),
{
    plain_reply(400, "400 Bad Request\n")
}

/// The answer where the upstream service gives none.
pub fn bad_gateway() -> (r: Reply)
    ensures
        r@ == plain(502, "502 Bad Gateway\n"@),
{
    plain_reply(502, "502 Bad Gateway\n")
}

/// The page that poses a challenge. It must not be cached: it holds a puzzle for one client.
pub fn challenge_page(html: String) -> (r: Reply)
    ensures
        r@ == (ReplyView {
            status: 200,
            headers: seq![
                ("Content-Type"@, "text/html; charset=utf-8"@),
                ("Cache-Control"@, "no-store"@),
            ],
            body: html@,
        }),
{
    let mut headers: Vec<(String, String)> = Vec::new();
    headers.push(("Content-Type".to_owned(), "text/html; charset=utf-8".to_owned()));
    headers.push(("Cache-Control".to_owned(), "no-store".to_owned()));
    let r = Reply { status: 200, headers, body: html };
    assert(r@.headers =~= seq![
        ("Content-Type"@, "text/html; charset=utf-8"@),
        ("Cache-Control"@, "no-store"@),
    ]);
    r
}

/// The script that solves puzzles in the browser.
pub fn worker_script(script: &str) -> (r: Reply)
    ensures
        r@ == (ReplyView {
            status: 200,
            headers: seq![("Content-Type"@, "application/javascript"@)],
            body: script@,
        }),
{
    let mut headers: Vec<(String, String)> = Vec::new();
    headers.push(("Content-Type".to_owned(), "application/javascript".to_owned()));
    let r = Reply { status: 200, headers, body: script.to_owned() };
    assert(r@.headers =~= seq![("Content-Type"@, "application/javascript"@)]);
    r
}

/// The name and value of the cookie that holds a token.
pub open spec fn cookie_pair(token: Seq<char>) -> Seq<char> {
    "_heavy-token="@ + token
}

/// The cookie that holds a token for the given number of seconds.
pub open spec fn token_cookie(token: Seq<char>, lifetime: u64) -> Seq<char> {
    cookie_pair(token) + "; Path=/; Max-Age="@ + digits(lifetime as int, 10) + "; SameSite=Lax"@
}

/// The answer to a submission: the cookie with the token, where one was earned.
pub open spec fn token_answer(token: Option<Seq<char>>, lifetime: u64) -> ReplyView {
    match token {
        Some(t) => ReplyView {
            status: 200,
            headers: seq![("Set-Cookie"@, token_cookie(t, lifetime))],
            body: Seq::empty(),
        },
        None => plain(400, "400 Bad Request\n"@),
    }
}

/// The answer to a submission: the cookie with the token, where one was earned.
pub fn token_reply(token: Option<String>, lifetime: u64) -> (r: Reply)
    ensures
        r@ == token_answer(
            match token {
                Some(t) => Some(t@),
                None => None,
            },
            lifetime,
        ),
{
    match token {
        Some(t) => {
            let mut cookie = "_heavy-token=".to_owned();
            push_text(&mut cookie, t.as_str());
            push_text(&mut cookie, "; Path=/; Max-Age=");
            push_text(&mut cookie, decimal(lifetime).as_str());
            push_text(&mut cookie, "; SameSite=Lax");
            let mut headers: Vec<(String, String)> = Vec::new();
            headers.push(("Set-Cookie".to_owned(), cookie));
            let r = Reply { status: 200, headers, body: String::new() };
            assert(r@.headers =~= seq![("Set-Cookie"@, token_cookie(t@, lifetime))]);
            assert(r@.body =~= Seq::empty());
            r
        },
        None => bad_request(),
    }
}

// ------------------------------------------------------------------------------------------
// Routing
// ------------------------------------------------------------------------------------------

/// What requests are challenged by.
pub struct ChallengeConfig {
    pub auth: Authenticator,
    /// Whether to challenge at any load.
    pub challenge_all: bool,
    /// How long the cookie with a token is kept, in seconds.
    pub token_lifetime: u64,
    pub whitelist: Whitelist,
}

/// The head of a request, and the peer it came from.
pub struct RequestHead<'a> {
    pub method: &'a str,
    pub path: &'a str,
    /// The path with the query, where the URI has a path.
    pub path_and_query: Option<&'a str>,
    pub headers: &'a HeaderMap<HeaderValue>,
    /// The address of the peer of the connection, which may be another proxy.
    pub peer_ip: IpAddr,
}

impl<'a> RequestHead<'a> {
    /// The headers.
    pub open spec fn entries(self) -> Seq<(Seq<char>, Seq<u8>)> {
        header_entries(*self.headers)
    }

    /// The octets of the client's address.
    pub open spec fn client(self) -> Seq<u8> {
        client_address(self.entries(), self.peer_ip@)
    }

    /// The client's user agent.
    pub open spec fn agent(self) -> Seq<char> {
        agent_of(self.entries())
    }
}

/// The proxy's own routes.
#[derive(Clone, Copy, Debug, PartialEq, Eq, Structural)]
pub enum Route {
    /// The script that solves puzzles.
    Worker,
    /// The submission of a solution.
    Submit,
    /// Nothing.
    Missing,
}

/// Whether a path belongs to the proxy itself.
pub open spec fn is_own(path: Seq<char>) -> bool {
    begins_with(path, "/__heavy/"@)
}

/// The route of a request to the proxy itself.
pub open spec fn own_route(method: Seq<char>, path: Seq<char>) -> Route {
    if method == "GET"@ && path == "/__heavy/worker.js"@ {
        Route::Worker
    } else if method == "POST"@ && path == "/__heavy/submit"@ {
        Route::Submit
    } else {
        Route::Missing
    }
}

/// The route of a request to the proxy itself.
pub fn route(method: &str, path: &str) -> (r: Route)
    ensures
        r == own_route(method@, path@),
{
    if same_text(method, "GET") && same_text(path, "/__heavy/worker.js") {
        Route::Worker
    } else if same_text(method, "POST") && same_text(path, "/__heavy/submit") {
        Route::Submit
    } else {
        Route::Missing
    }
}

/// A request on its way upstream.
#[derive(Debug)]
pub struct Forwarding {
    pub method: String,
    /// The path with the query.
    pub target: String,
    pub headers: Vec<(String, Vec<u8>)>,
    /// When the request came in.
    pub received: Option<ClockReading>,
}

/// What to do with a request.
#[derive(Debug)]
pub enum Action {
    /// Answer it from the proxy's own routes.
    Serve(Route),
    /// Pose the puzzle to the client.
    Challenge { puzzle: String },
    /// Pass it on.
    Forward(Forwarding),
}

/// Whether one of the cookies of a request is a token that is valid for the client.
pub open spec fn holds_token(
    auth: Authenticator,
    now: Option<ClockReading>,
    head: RequestHead,
) -> bool {
    let tokens = cookies(values_of(head.entries(), "cookie"@), "_heavy-token"@);
    exists|i: int|
        0 <= i < tokens.len() && auth.accepts(now, head.client(), head.agent(), #[trigger] tokens[i])
}

/// Whether a request has to solve a challenge: challenges are on, no whitelist rule exempts it, it
/// is not for a sub-resource, so that pages do not break while they load, and it has no token.
pub open spec fn must_solve(
    cc: ChallengeConfig,
    high_load: bool,
    now: Option<ClockReading>,
    head: RequestHead,
) -> bool {
    &&& cc.challenge_all || high_load
    &&& !exempts(cc.whitelist.patterns(), cc.whitelist.blocks(), head.path@, head.client())
    &&& !subresource_mode(header_text(head.entries(), "sec-fetch-mode"@))
    &&& !holds_token(cc.auth, now, head)
}

/// The text of the URI under which a request is passed on.
pub open spec fn upstream_target(head: RequestHead) -> Seq<char> {
    match head.path_and_query {
        Some(text) => text@,
        None => "/"@,
    }
}

/// Whether an action is what becomes of a request: the proxy's own routes come first, then the
/// challenge, and all else is passed on without the headers of the connection.
pub open spec fn becomes(
    cc: ChallengeConfig,
    high_load: bool,
    now: Option<ClockReading>,
    head: RequestHead,
    action: Action,
) -> bool {
    if is_own(head.path@) {
        action == Action::Serve(own_route(head.method@, head.path@))
    } else if must_solve(cc, high_load, now, head) {
        action matches Action::Challenge { puzzle } && puzzle@ == cc.auth.puzzle(
            whole_secs(now),
            head.client(),
            head.agent(),
        )
    } else {
        action matches Action::Forward(f) && {
            &&& f.method@ == head.method@
            &&& f.target@ == upstream_target(head)
            &&& entries_view(f.headers@) == forwardable(head.entries())
            &&& f.received == now
        }
    }
}

/// Whether one of the cookies of a request is a token that is valid for the client.
fn has_token(
    auth: &Authenticator,
    now: Option<ClockReading>,
    headers: &HeaderMap<HeaderValue>,
    client: IpAddr,
    agent: &str,
) -> (r: bool)
    ensures
        ({
            let tokens = cookies(values_of(header_entries(*headers), "cookie"@), "_heavy-token"@);
            r == exists|i: int|
                0 <= i < tokens.len() && auth.accepts(now, client@, agent@, #[trigger] tokens[i])
        }),
{
    let tokens = cookie_values(headers, "_heavy-token");
    let ghost all = texts(tokens@);
    let mut i: usize = 0;
    while i < tokens.len()
        invariant
            i <= tokens@.len(),
            all == texts(tokens@),
            all == cookies(values_of(header_entries(*headers), "cookie"@), "_heavy-token"@),
            forall|j: int| 0 <= j < i ==> !auth.accepts(now, client@, agent@, #[trigger] all[j]),
        decreases tokens@.len() - i,
    {
        assert(all[i as int] == tokens@[i as int]@);
        if auth.verify_token_at(now, client, agent, tokens[i].as_str()) {
            return true;
        }
        i += 1;
    }
    false
}

impl ChallengeConfig {
    /// What requests are challenged by, under a secret, a difficulty, and a lifetime of tokens in
    /// seconds.
    pub fn new(
        secret: &str,
        difficulty: u32,
        challenge_all: bool,
        token_lifetime: u64,
        whitelist: Whitelist,
    ) -> (r: Self)
        ensures
            r.auth.is_keyed_by(secret@),
            r.auth.work() == difficulty,
            r.auth.lifetime() == token_lifetime,
            r.challenge_all == challenge_all,
            r.token_lifetime == token_lifetime,
            r.whitelist == whitelist,
    {
        ChallengeConfig {
            auth: Authenticator::new(secret, difficulty, token_lifetime),
            challenge_all,
            token_lifetime,
            whitelist,
        }
    }

    /// Decides what becomes of a request, at the given reading of the clock.
    pub fn decide_at(&self, high_load: bool, now: Option<ClockReading>, head: &RequestHead) -> (r:
        Action)
        ensures
            becomes(*self, high_load, now, *head, r),
    {
        let path = chars_of(head.path);
        let own = chars_of("/__heavy/");
        if starts_with(&path, &own) {
            return Action::Serve(route(head.method, head.path));
        }
        let client = client_ip(head.headers, head.peer_ip);
        let agent = user_agent(head.headers);
        if (self.challenge_all || high_load) && !self.whitelist.is_exempt(head.path, client)
            && !is_subresource_request(head.headers) && !has_token(
            &self.auth,
            now,
            head.headers,
            client,
            agent.as_str(),
        ) {
            let puzzle = self.auth.make_puzzle_at(epoch_secs(now), client, agent.as_str());
            return Action::Challenge { puzzle };
        }
        let target = match head.path_and_query {
            Some(text) => text.to_owned(),
            None => "/".to_owned(),
        };
        Action::Forward(
            Forwarding {
                method: head.method.to_owned(),
                target,
                headers: filter_headers(head.headers),
                received: now,
            },
        )
    }

    /// Decides what becomes of a request now.
    pub fn decide(&self, high_load: bool, head: &RequestHead) -> (r: Action)
        ensures
            exists|now: Option<ClockReading>| #[trigger]
                is_reading(now) && becomes(*self, high_load, now, *head, r),
    {
        self.decide_at(high_load, now(), head)
    }

    /// Answers the submission of a solution, at the given reading of the clock. A body that could
    /// not be read gives no solution.
    pub fn submit_at(
        &self,
        now: Option<ClockReading>,
        headers: &HeaderMap<HeaderValue>,
        peer_ip: IpAddr,
        solution: Option<Solution>,
    ) -> (r: Reply)
        ensures
            r@ == token_answer(
                self.auth.redeems(
                    now,
                    client_address(header_entries(*headers), peer_ip@),
                    agent_of(header_entries(*headers)),
                    solution,
                ),
                self.token_lifetime,
            ),
    {
        let client = client_ip(headers, peer_ip);
        let agent = user_agent(headers);
        token_reply(
            self.auth.redeem_solution_at(now, client, agent.as_str(), solution),
            self.token_lifetime,
        )
    }

    /// Answers the submission of a solution now.
    pub fn submit(
        &self,
        headers: &HeaderMap<HeaderValue>,
        peer_ip: IpAddr,
        solution: Option<Solution>,
    ) -> (r: Reply)
        ensures
            exists|now: Option<ClockReading>| #[trigger]
                is_reading(now) && r@ == token_answer(
                    self.auth.redeems(
                        now,
                        client_address(header_entries(*headers), peer_ip@),
                        agent_of(header_entries(*headers)),
                        solution,
                    ),
                    self.token_lifetime,
                ),
    {
        self.submit_at(now(), headers, peer_ip, solution)
    }
}

// ------------------------------------------------------------------------------------------
// After the answer
// ------------------------------------------------------------------------------------------

/// The milliseconds of a reading behind its last whole second.
pub open spec fn subsec_millis(now: Option<ClockReading>) -> int {
    match now {
        Some(t) => t.nanos as int / 1_000_000,
        None => 0,
    }
}

/// Whether an entry records a request that was passed on: with the status from upstream, or with
/// that of a bad gateway where none came.
pub open spec fn records(
    f: Forwarding,
    status: Option<u16>,
    millis: u128,
    average: u64,
    high_load: bool,
    entry: LogEntry,
) -> bool {
    &&& entry.timestamp_secs == whole_secs(f.received)
    &&& entry.timestamp_millis == subsec_millis(f.received)
    &&& entry.method@ == f.method@
    &&& entry.path@ == f.target@
    &&& are_pairs_of(entry.headers@, logged(entries_view(f.headers@)))
    &&& entry.status == match status {
        Some(s) => s,
        None => 502,
    }
    &&& entry.latency_ms == if millis <= u32::MAX {
        millis as int
    } else {
        u32::MAX as int
    }
    &&& entry.average_latency == average
    &&& entry.high_load == high_load
}

/// The entry for a request that was passed on, with the status from upstream where one came, the
/// milliseconds until then, and the state of the latency monitor.
pub fn log_entry(
    f: Forwarding,
    status: Option<u16>,
    millis: u128,
    average: u64,
    high_load: bool,
) -> (r: LogEntry)
    ensures
        records(f, status, millis, average, high_load, r),
{
    let timestamp_millis: u32 = match f.received {
        Some(t) => t.nanos / 1_000_000,
        None => 0,
    };
    let status: u16 = match status {
        Some(s) => s,
        None => 502,
    };
    let headers = logged_headers(&f.headers);
    LogEntry {
        timestamp_secs: epoch_secs(f.received),
        timestamp_millis,
        method: f.method,
        path: f.target,
        headers,
        status,
        latency_ms: logged_latency(millis),
        average_latency: average,
        high_load,
    }
}

/// A change of the load that is worth a notice.
#[derive(Clone, Copy, Debug, PartialEq, Eq, Structural)]
pub enum LoadChange {
    Entering,
    Leaving,
}

/// The notice that an update of the latency monitor calls for.
pub fn load_change(changed: bool, high_load: bool) -> (r: Option<LoadChange>)
    ensures
        r == (if !changed {
            None
        } else if high_load {
            Some(LoadChange::Entering)
        } else {
            Some(LoadChange::Leaving)
        }),
{
    if !changed {
        None
    } else if high_load {
        Some(LoadChange::Entering)
    } else {
        Some(LoadChange::Leaving)
    }
}

// ------------------------------------------------------------------------------------------
// Laws
// ------------------------------------------------------------------------------------------

/// The proxy's own namespace is never passed on and never challenged.
pub proof fn law_own_routes_stay(
    cc: ChallengeConfig,
    high_load: bool,
    now: Option<ClockReading>,
    head: RequestHead,
    action: Action,
)
    requires
        is_own(head.path@),
        becomes(cc, high_load, now, head, action),
    ensures
        action is Serve,
{
}

/// Outside its own namespace the proxy answers nothing by itself but with a challenge, and every
/// request that need not solve one is passed on.
pub proof fn law_all_else_is_passed_on(
    cc: ChallengeConfig,
    high_load: bool,
    now: Option<ClockReading>,
    head: RequestHead,
    action: Action,
)
    requires
        !is_own(head.path@),
        becomes(cc, high_load, now, head, action),
    ensures
        action is Challenge <==> must_solve(cc, high_load, now, head),
        action is Forward <==> !must_solve(cc, high_load, now, head),
{
}

/// While the load is low, nobody is challenged, unless all are.
pub proof fn law_low_load_is_not_challenged(
    cc: ChallengeConfig,
    now: Option<ClockReading>,
    head: RequestHead,
)
    requires
        !cc.challenge_all,
    ensures
        !must_solve(cc, false, now, head),
{
}

/// Sub-resources and requests that the whitelist exempts are never challenged.
pub proof fn law_exempt_is_not_challenged(
    cc: ChallengeConfig,
    high_load: bool,
    now: Option<ClockReading>,
    head: RequestHead,
)
    requires
        subresource_mode(header_text(head.entries(), "sec-fetch-mode"@)) || exempts(
            cc.whitelist.patterns(),
            cc.whitelist.blocks(),
            head.path@,
            head.client(),
        ),
    ensures
        !must_solve(cc, high_load, now, head),
{
}

/// What challenges one request at low load challenges it at high load too.
pub proof fn law_higher_load_challenges_no_less(
    cc: ChallengeConfig,
    now: Option<ClockReading>,
    head: RequestHead,
)
    ensures
        must_solve(cc, false, now, head) ==> must_solve(cc, true, now, head),
{
}

/// Every pair of a list that has the name is among the values.
proof fn lemma_pair_is_found(pairs: Seq<Seq<char>>, name: Seq<char>, value: Seq<char>, j: int)
    requires
        0 <= j < pairs.len(),
        split_once(trimmed(pairs[j], white()), '=') == Some((name, value)),
    ensures
        pair_values(pairs, name).contains(value),
    decreases pairs.len(),
{
    let before = pair_values(pairs.drop_last(), name);
    if j == pairs.len() - 1 {
        assert(before.push(value)[before.len() as int] == value);
    } else {
        lemma_pair_is_found(pairs.drop_last(), name, value, j);
        let k = choose|k: int| 0 <= k < before.len() && before[k] == value;
        let all = pair_values(pairs, name);
        assert(all[k] == value);
    }
}

/// Every cookie in one of the headers is among the cookies of all.
proof fn lemma_cookie_is_found(headers: Seq<Seq<u8>>, name: Seq<char>, value: Seq<char>, i: int)
    requires
        0 <= i < headers.len(),
        visible_text(headers[i]) is Some,
        pair_values(split(visible_text(headers[i]).unwrap(), seq![';']), name).contains(value),
    ensures
        cookies(headers, name).contains(value),
    decreases headers.len(),
{
    let before = cookies(headers.drop_last(), name);
    let all = cookies(headers, name);
    if i == headers.len() - 1 {
        let more = pair_values(split(visible_text(headers[i]).unwrap(), seq![';']), name);
        let k = choose|k: int| 0 <= k < more.len() && more[k] == value;
        assert(all[before.len() + k] == value);
    } else {
        lemma_cookie_is_found(headers.drop_last(), name, value, i);
        let k = choose|k: int| 0 <= k < before.len() && before[k] == value;
        assert(all[k] == value);
    }
}

/// The pair of the cookie is cut into the name and the token.
proof fn lemma_cookie_pair(token: Seq<char>)
    ensures
        split_once(cookie_pair(token), '=') == Some(("_heavy-token"@, token)),
{
    reveal_strlit("_heavy-token=");
    reveal_strlit("_heavy-token");
    let s = cookie_pair(token);
    let sep = seq!['='];
    assert(sep[0] == '=');
    lemma_first_of_unique(s, sep, 12);
    assert(s.take(12) =~= "_heavy-token"@);
    assert(s.skip(13) =~= token);
}

/// A solved challenge opens the way: the token that a submission earned, sent back as the cookie
/// in any of the `Cookie` headers and among any other cookies, spares the same client every
/// challenge as long as the timestamp of the puzzle is fresh.
pub proof fn law_earned_cookie_spares_challenge(
    cc: ChallengeConfig,
    high_load: bool,
    redeemed_at: Option<ClockReading>,
    now: Option<ClockReading>,
    solution: Solution,
    head: RequestHead,
    header: int,
    pair: int,
)
    requires
        cc.auth.redeems(redeemed_at, head.client(), head.agent(), Some(solution)) is Some,
        fresh(now, solution.timestamp, cc.auth.lifetime()),
        ({
            let cookies = values_of(head.entries(), "cookie"@);
            &&& 0 <= header < cookies.len()
            &&& visible_text(cookies[header]) matches Some(text) && {
                &&& 0 <= pair < split(text, seq![';']).len()
                &&& trimmed(split(text, seq![';'])[pair], white()) == cookie_pair(
                    cc.auth.redeems(
                        redeemed_at,
                        head.client(),
                        head.agent(),
                        Some(solution),
                    ).unwrap(),
                )
            }
        }),
    ensures
        holds_token(cc.auth, now, head),
        !must_solve(cc, high_load, now, head),
{
    let token = cc.auth.redeems(
        redeemed_at,
        head.client(),
        head.agent(),
        Some(solution),
    ).unwrap();
    let values = values_of(head.entries(), "cookie"@);
    let text = visible_text(values[header]).unwrap();
    lemma_cookie_pair(token);
    lemma_pair_is_found(split(text, seq![';']), "_heavy-token"@, token, pair);
    lemma_cookie_is_found(values, "_heavy-token"@, token, header);
    let tokens = cookies(values, "_heavy-token"@);
    let k = choose|k: int| 0 <= k < tokens.len() && tokens[k] == token;
    law_redeemed_token_is_accepted(
        cc.auth,
        redeemed_at,
        now,
        head.client(),
        head.agent(),
        solution,
    );
    assert(cc.auth.accepts(now, head.client(), head.agent(), tokens[k]));
}

/// The cookie that an answer sets begins with the pair that the browser is to send back, up to the
/// first semicolon. The pair is visible text and can stand in a `Cookie` header as it is: it is
/// neither cut there nor trimmed.
pub proof fn law_cookie_can_be_sent_back(
    auth: Authenticator,
    ts: u64,
    ip: Seq<u8>,
    ua: Seq<char>,
    lifetime: u64,
)
    ensures
        ({
            let token = auth.token(ts, ip, ua);
            let pair = cookie_pair(token);
            &&& split(token_cookie(token, lifetime), seq![';'])[0] == pair
            &&& forall|i: int| 0 <= i < pair.len() ==> ' ' < #[trigger] pair[i] <= '~'
            &&& split(pair, seq![';']) == seq![pair]
            &&& trimmed(pair, white()) == pair
        }),
{
    let token = auth.token(ts, ip, ua);
    let pair = cookie_pair(token);
    let s = token_cookie(token, lifetime);
    let sep = seq![';'];
    reveal_strlit("_heavy-token=");
    reveal_strlit("; Path=/; Max-Age=");
    lemma_digits(ts as int, 16);
    let signature = auth.signature(ts, ip, ua)@;
    let stamp = digits(ts as int, 16);
    assert(sep[0] == ';');
    assert forall|i: int| 0 <= i < pair.len() implies ' ' < #[trigger] pair[i] <= '~' && pair[i]
        != ';' by {
        if i >= 13 {
            let k = i - 13;
            assert(pair[i] == token[k]);
            if k < stamp.len() {
                assert(token[k] == stamp[k]);
            } else if k > stamp.len() {
                let h = k - stamp.len() - 1;
                assert(token[k] == hex_text(signature)[h]);
                let b = signature[h / 2] as int;
                assert(0 <= b / 16 < 16 && 0 <= b % 16 < 16);
            }
        }
    }
    assert forall|i: int| 0 <= i < pair.len() implies !sep.contains(#[trigger] s[i]) by {
        assert(s[i] == pair[i]);
    }
    assert(s[pair.len() as int] == ';');
    lemma_first_of_unique(s, sep, pair.len() as int);
    assert(s.take(pair.len() as int) =~= pair);
    assert forall|i: int| 0 <= i < pair.len() implies !sep.contains(#[trigger] pair[i]) by {}
    lemma_first_of_unique(pair, sep, pair.len() as int);
    assert(!white()(pair[0]));
    assert(!white()(pair.last())) by {
        assert(' ' < pair[pair.len() - 1] <= '~');
    }
}

/// The headers that go upstream hold none that only applies to the connection with the client.
pub proof fn law_no_connection_header_goes_upstream(
    cc: ChallengeConfig,
    high_load: bool,
    now: Option<ClockReading>,
    head: RequestHead,
    f: Forwarding,
    i: int,
)
    requires
        becomes(cc, high_load, now, head, Action::Forward(f)),
        0 <= i < f.headers@.len(),
    ensures
        !is_hop_by_hop(f.headers@[i].0@),
        head.entries().contains((f.headers@[i].0@, f.headers@[i].1@)),
{
    let sent = forwardable(head.entries());
    let entry = (f.headers@[i].0@, f.headers@[i].1@);
    assert(sent[i] == entry);
    assert(sent.contains(entry));
    law_just_end_to_end_headers_pass(head.entries(), entry);
}

/// What becomes of a request, by what is read from it. Whatever its method, a request outside the
/// proxy's own namespace is challenged exactly where challenges are on, no whitelist rule exempts
/// it, it is not for a sub-resource, and none of its token cookies is accepted from its client; and
/// the puzzle is one for that client, made now. All others are passed on with their method, their
/// path and query, and the headers that pass. Only what begins with the prefix of the namespace is
/// in it.
pub proof fn law_requests_are_decided(
    cc: ChallengeConfig,
    high_load: bool,
    now: Option<ClockReading>,
    head: RequestHead,
    action: Action,
    client: IpAddr,
    agent: String,
    exempt: bool,
    subresource: bool,
    tokens: Vec<String>,
    sent: Vec<(String, Vec<u8>)>,
)
    requires
        call_ensures(ChallengeConfig::decide_at, (&cc, high_load, now, &head), action),
        call_ensures(client_ip, (head.headers, head.peer_ip), client),
        call_ensures(user_agent, (head.headers,), agent),
        call_ensures(Whitelist::is_exempt, (&cc.whitelist, head.path, client), exempt),
        call_ensures(is_subresource_request, (head.headers,), subresource),
        call_ensures(cookie_values, (head.headers, "_heavy-token"), tokens),
        call_ensures(filter_headers, (head.headers,), sent),
    ensures
        ({
            let own = head.path@.len() >= 9 && head.path@.take(9) == "/__heavy/"@;
            let admitted = exists|i: int|
                0 <= i < tokens@.len() && cc.auth.accepts(
                    now,
                    client@,
                    agent@,
                    (#[trigger] tokens@[i])@,
                );
            let must = (cc.challenge_all || high_load) && !exempt && !subresource && !admitted;
            &&& action is Serve <==> own
            &&& action is Challenge <==> !own && must
            &&& action is Forward <==> !own && !must
            &&& action matches Action::Serve(route) ==> {
                &&& route is Worker <==> head.method@ == "GET"@ && head.path@
                    == "/__heavy/worker.js"@
                &&& route is Submit <==> head.method@ == "POST"@ && head.path@ == "/__heavy/submit"@
            }
            &&& action matches Action::Challenge { puzzle } ==> puzzle@ == cc.auth.puzzle(
                match now {
                    Some(t) => t.secs,
                    None => 0,
                },
                client@,
                agent@,
            )
            &&& action matches Action::Forward(f) ==> {
                &&& f.method@ == head.method@
                &&& f.target@ == match head.path_and_query {
                    Some(text) => text@,
                    None => "/"@,
                }
                &&& entries_view(f.headers@) == entries_view(sent@)
                &&& f.received == now
            }
        }),
{
    reveal_strlit("/__heavy/");
    reveal_strlit("/__heavy/worker.js");
    reveal_strlit("/__heavy/submit");
    let all = cookies(values_of(head.entries(), "cookie"@), "_heavy-token"@);
    assert(texts(tokens@) == all);
    if holds_token(cc.auth, now, head) {
        let i = choose|i: int|
            0 <= i < all.len() && cc.auth.accepts(
                now,
                head.client(),
                head.agent(),
                #[trigger] all[i],
            );
        assert(tokens@[i]@ == all[i]);
    }
    if exists|i: int|
        0 <= i < tokens@.len() && cc.auth.accepts(now, client@, agent@, (#[trigger] tokens@[i])@) {
        let i = choose|i: int|
            0 <= i < tokens@.len() && cc.auth.accepts(
                now,
                client@,
                agent@,
                (#[trigger] tokens@[i])@,
            );
        assert(all[i] == tokens@[i]@);
    }
    let method_differs = "GET"@ != "POST"@;
    reveal_strlit("GET");
    reveal_strlit("POST");
    assert(method_differs) by {
        assert("GET"@.len() != "POST"@.len());
    }
}

/// The method of a request makes no difference outside the proxy's own namespace: two requests that
/// differ in nothing else are both challenged, with the same puzzle, or both passed on.
pub proof fn law_method_makes_no_difference(
    cc: ChallengeConfig,
    high_load: bool,
    now: Option<ClockReading>,
    one: RequestHead,
    other: RequestHead,
    action: Action,
    other_action: Action,
)
    requires
        one.path@ == other.path@,
        one.path_and_query == other.path_and_query,
        one.headers == other.headers,
        one.peer_ip == other.peer_ip,
        !(one.path@.len() >= 9 && one.path@.take(9) == "/__heavy/"@),
        call_ensures(ChallengeConfig::decide_at, (&cc, high_load, now, &one), action),
        call_ensures(ChallengeConfig::decide_at, (&cc, high_load, now, &other), other_action),
    ensures
        action is Challenge <==> other_action is Challenge,
        action is Forward <==> other_action is Forward,
        action is Challenge || action is Forward,
        action matches Action::Challenge { puzzle } ==> other_action->puzzle@ == puzzle@,
{
    reveal_strlit("/__heavy/");
}

/// A submission is answered with a cookie that holds the token that it earned, for as long as
/// tokens live, and with an error where it earned none.
pub proof fn law_submissions_are_answered(
    cc: ChallengeConfig,
    now: Option<ClockReading>,
    headers: HeaderMap<HeaderValue>,
    peer_ip: IpAddr,
    solution: Option<Solution>,
    reply: Reply,
    client: IpAddr,
    agent: String,
)
    requires
        call_ensures(ChallengeConfig::submit_at, (&cc, now, &headers, peer_ip, solution), reply),
        call_ensures(client_ip, (&headers, peer_ip), client),
        call_ensures(user_agent, (&headers,), agent),
    ensures
        cc.auth.redeems(now, client@, agent@, solution) matches Some(token) ==> {
            &&& reply.status == 200
            &&& reply.headers@.len() == 1
            &&& reply.headers@[0].0@ == "Set-Cookie"@
            &&& reply.headers@[0].1@ == "_heavy-token="@ + token + "; Path=/; Max-Age="@ + digits(
                cc.token_lifetime as int,
                10,
            ) + "; SameSite=Lax"@
            &&& reply.body@.len() == 0
        },
        cc.auth.redeems(now, client@, agent@, solution) is None ==> {
            &&& reply.status == 400
            &&& reply.headers@.len() == 0
            &&& reply.body@ == "400 Bad Request\n"@
        },
{
    assert(reply@.headers.len() == reply.headers@.len());
    if cc.auth.redeems(now, client@, agent@, solution) is Some {
        assert(reply@.headers[0] == (reply.headers@[0].0@, reply.headers@[0].1@));
    }
}

/// The proxy's own answers: their status, their headers and their bodies.
pub proof fn law_own_answers(
    html: String,
    script: &str,
    token: Option<String>,
    lifetime: u64,
    missing: Reply,
    bad: Reply,
    gateway: Reply,
    page: Reply,
    worker: Reply,
    cookie: Reply,
)
    requires
        call_ensures(not_found, (), missing),
        call_ensures(bad_request, (), bad),
        call_ensures(bad_gateway, (), gateway),
        call_ensures(challenge_page, (html,), page),
        call_ensures(worker_script, (script,), worker),
        call_ensures(token_reply, (token, lifetime), cookie),
    ensures
        missing.status == 404 && missing.headers@.len() == 0 && missing.body@
            == "404 Not Found\n"@,
        bad.status == 400 && bad.headers@.len() == 0 && bad.body@ == "400 Bad Request\n"@,
        gateway.status == 502 && gateway.headers@.len() == 0 && gateway.body@
            == "502 Bad Gateway\n"@,
        page.status == 200 && page.body@ == html@ && page.headers@.len() == 2,
        page.headers@[0].0@ == "Content-Type"@ && page.headers@[0].1@
            == "text/html; charset=utf-8"@,
        page.headers@[1].0@ == "Cache-Control"@ && page.headers@[1].1@ == "no-store"@,
        worker.status == 200 && worker.body@ == script@ && worker.headers@.len() == 1,
        worker.headers@[0].0@ == "Content-Type"@ && worker.headers@[0].1@
            == "application/javascript"@,
        token is Some <==> cookie.status == 200,
        token is None <==> cookie.status == 400,
{
    assert(missing@.headers.len() == missing.headers@.len());
    assert(bad@.headers.len() == bad.headers@.len());
    assert(gateway@.headers.len() == gateway.headers@.len());
    assert(page@.headers.len() == page.headers@.len());
    assert(page@.headers[0] == (page.headers@[0].0@, page.headers@[0].1@));
    assert(page@.headers[1] == (page.headers@[1].0@, page.headers@[1].1@));
    assert(worker@.headers.len() == worker.headers@.len());
    assert(worker@.headers[0] == (worker.headers@[0].0@, worker.headers@[0].1@));
}

/// The log tells of a request what was passed on, when it came in, to the millisecond, how it was
/// answered, and how long that took; the notice of a change of load comes exactly with a change.
pub proof fn law_requests_are_logged(
    f: Forwarding,
    status: Option<u16>,
    millis: u128,
    average: u64,
    high_load: bool,
    entry: LogEntry,
    changed: bool,
    notice: Option<LoadChange>,
)
    requires
        call_ensures(log_entry, (f, status, millis, average, high_load), entry),
        call_ensures(load_change, (changed, high_load), notice),
    ensures
        f.received matches Some(t) ==> entry.timestamp_secs == t.secs && entry.timestamp_millis
            * 1_000_000 <= t.nanos < (entry.timestamp_millis + 1) * 1_000_000,
        f.received is None ==> entry.timestamp_secs == 0 && entry.timestamp_millis == 0,
        entry.method@ == f.method@,
        entry.path@ == f.target@,
        are_pairs_of(entry.headers@, logged(entries_view(f.headers@))),
        status matches Some(s) ==> entry.status == s,
        status is None ==> entry.status == 502,
        millis < 0x1_0000_0000 ==> entry.latency_ms == millis,
        millis >= 0x1_0000_0000 ==> entry.latency_ms == 0xffff_ffff,
        entry.average_latency == average,
        entry.high_load == high_load,
        notice is Some <==> changed,
        notice matches Some(LoadChange::Entering) ==> high_load,
        notice matches Some(LoadChange::Leaving) ==> !high_load,
{
}

/// What requests are challenged by is what was configured, and without a reading at hand the clock
/// is asked.
pub proof fn law_challenges_are_as_configured(
    secret: &str,
    difficulty: u32,
    challenge_all: bool,
    token_lifetime: u64,
    whitelist: Whitelist,
    cc: ChallengeConfig,
    auth: Authenticator,
    high_load: bool,
    head: RequestHead,
    solution: Option<Solution>,
    action: Action,
    reply: Reply,
)
    requires
        call_ensures(
            ChallengeConfig::new,
            (secret, difficulty, challenge_all, token_lifetime, whitelist),
            cc,
        ),
        call_ensures(Authenticator::new, (secret, difficulty, token_lifetime), auth),
        call_ensures(ChallengeConfig::decide, (&cc, high_load, &head), action),
        call_ensures(ChallengeConfig::submit, (&cc, head.headers, head.peer_ip, solution), reply),
    ensures
        cc.auth.nonce_key() == auth.nonce_key(),
        cc.auth.signing_key() == auth.signing_key(),
        cc.auth.work() == auth.work(),
        cc.auth.lifetime() == auth.lifetime(),
        cc.challenge_all == challenge_all,
        cc.token_lifetime == token_lifetime,
        cc.whitelist == whitelist,
        exists|now: Option<ClockReading>| #[trigger]
            is_reading(now) && becomes(cc, high_load, now, head, action),
        exists|now: Option<ClockReading>| #[trigger]
            is_reading(now) && reply@ == token_answer(
                cc.auth.redeems(now, head.client(), head.agent(), solution),
                token_lifetime,
            ),
{
    let now = choose|now: Option<ClockReading>| #[trigger]
        is_reading(now) && reply@ == token_answer(
            cc.auth.redeems(
                now,
                client_address(header_entries(*head.headers), head.peer_ip@),
                agent_of(header_entries(*head.headers)),
                solution,
            ),
            cc.token_lifetime,
        );
    assert(is_reading(now));
}

} // verus!
