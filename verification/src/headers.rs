//! What the proxy reads from request headers, and which headers it passes on.

use crate::ip::{ip_of_text, parse_ip, IpAddr};
use crate::text::{
    before_last, chars_of, cut_last, cut_once, law_cut_is_at_the_first, law_cut_is_at_the_last,
    law_separators_split, lists, lowered, only, same, same_text, split, split_at_any,
    split_once, text_of, texts, to_lower, trim, trim_matches, trimmed, views, white,
};
use hyper::header::{HeaderMap, HeaderValue};
use vstd::prelude::*;

verus! {

// ------------------------------------------------------------------------------------------
// Header maps
// ------------------------------------------------------------------------------------------

/// The header map of an HTTP message.
#[verifier::external_type_specification]
#[verifier::external_body]
#[verifier::reject_recursive_types(T)]
pub struct ExHeaderMap<T>(hyper::header::HeaderMap<T>);

/// The value of a header.
#[verifier::external_type_specification]
#[verifier::external_body]
pub struct ExHeaderValue(hyper::header::HeaderValue);

/// The headers in a map, name and value, in the order in which the map walks them. Names are in
/// lower case, and the values of one name stand together.
pub uninterp spec fn header_entries(map: HeaderMap<HeaderValue>) -> Seq<(Seq<char>, Seq<u8>)>;

/// The values of the headers with the given name, in order.
pub open spec fn values_of(entries: Seq<(Seq<char>, Seq<u8>)>, name: Seq<char>) -> Seq<Seq<u8>>
    decreases entries.len(),
{
    if entries.len() == 0 {
        Seq::empty()
    } else {
        let before = values_of(entries.drop_last(), name);
        if entries.last().0 == name {
            before.push(entries.last().1)
        } else {
            before
        }
    }
}

/// The views of a list of headers.
pub open spec fn entries_view(list: Seq<(String, Vec<u8>)>) -> Seq<(Seq<char>, Seq<u8>)> {
    list.map_values(|e: (String, Vec<u8>)| (e.0@, e.1@))
}

/// The views of a list of byte strings.
pub open spec fn bytes_views(list: Seq<Vec<u8>>) -> Seq<Seq<u8>> {
    list.map_values(|v: Vec<u8>| v@)
}

/// `HeaderMap::iter`: every header in the map, each name once for each of its values.
#[verifier::external_body]
fn all_headers(map: &HeaderMap<HeaderValue>) -> (r: Vec<(String, Vec<u8>)>)
    ensures
        entries_view(r@) == header_entries(*map),
{
    map.iter().map(|(name, value)| (name.as_str().to_owned(), value.as_bytes().to_vec())).collect()
}

/// `HeaderMap::get_all`: the values of the name, which is looked up without regard to case, in
/// order. Only names that can be parsed are looked up.
#[verifier::external_body]
fn header_values(map: &HeaderMap<HeaderValue>, name: &str) -> (r: Vec<Vec<u8>>)
    requires
        header_name(name@) is Some,
    ensures
        bytes_views(r@) == values_of(header_entries(*map), lowered(name@)),
{
    map.get_all(name).iter().map(|value| value.as_bytes().to_vec()).collect()
}

/// `HeaderMap::get`: the first value of the name, which is looked up without regard to case. Only
/// names that can be parsed are looked up.
#[verifier::external_body]
pub(crate) fn header_value(map: &HeaderMap<HeaderValue>, name: &str) -> (r: Option<Vec<u8>>)
    requires
        header_name(name@) is Some,
    ensures
        match r {
            Some(value) => values_of(header_entries(*map), lowered(name@)).len() > 0
                && value@ == values_of(header_entries(*map), lowered(name@))[0],
            None => values_of(header_entries(*map), lowered(name@)).len() == 0,
        },
{
    Some(map.get(name)?.as_bytes().to_vec())
}

/// The characters that the name of a header can hold.
pub open spec fn is_token_char(c: char) -> bool {
    let n = c as u32;
    ||| 48 <= n <= 57
    ||| 65 <= n <= 90
    ||| 94 <= n <= 122
    ||| 35 <= n <= 39
    ||| n == 33
    ||| n == 42
    ||| n == 43
    ||| n == 45
    ||| n == 46
    ||| n == 124
    ||| n == 126
}

/// The name of a header that a text stands for: the text in lower case, where it is made of token
/// characters and neither empty nor too long.
pub open spec fn header_name(text: Seq<char>) -> Option<Seq<char>> {
    if 0 < text.len() <= 0xffff && (forall|i: int|
        0 <= i < text.len() ==> is_token_char(#[trigger] text[i])) {
        Some(lowered(text))
    } else {
        None
    }
}

/// `HeaderName::from_str`: the name in lower case, or an error for a text that is no token.
#[verifier::external_body]
fn parse_header_name(text: &str) -> (r: Option<String>)
    ensures
        match r {
            Some(name) => header_name(text@) == Some(name@),
            None => header_name(text@) is None,
        },
{
    Some(text.parse::<hyper::header::HeaderName>().ok()?.as_str().to_owned())
}

/// The text of a header value: its characters, where all of them are visible ASCII, spaces or tabs.
pub open spec fn visible_text(bytes: Seq<u8>) -> Option<Seq<char>> {
    if forall|i: int| 0 <= i < bytes.len() ==> 32 <= #[trigger] bytes[i] < 127 || bytes[i] == 9 {
        Some(bytes.map_values(|b: u8| b as char))
    } else {
        None
    }
}

/// The text of the first header with the given name, where there is one and it is visible.
pub open spec fn header_text(entries: Seq<(Seq<char>, Seq<u8>)>, name: Seq<char>) -> Option<
    Seq<char>,
> {
    let values = values_of(entries, name);
    if values.len() > 0 {
        visible_text(values[0])
    } else {
        None
    }
}

/// The text of a header value.
pub fn visible(bytes: &[u8]) -> (r: Option<Vec<char>>)
    ensures
        match r {
            Some(text) => visible_text(bytes@) == Some(text@),
            None => visible_text(bytes@) is None,
        },
{
    let mut text: Vec<char> = Vec::new();
    let mut i: usize = 0;
    while i < bytes.len()
        invariant
            i <= bytes@.len(),
            forall|j: int| 0 <= j < i ==> 32 <= #[trigger] bytes@[j] < 127 || bytes@[j] == 9,
            text@ == bytes@.take(i as int).map_values(|b: u8| b as char),
        decreases bytes@.len() - i,
    {
        let b = bytes[i];
        if !((32 <= b && b < 127) || b == 9) {
            return None;
        }
        text.push(b as char);
        i += 1;
        assert(text@ =~= bytes@.take(i as int).map_values(|b: u8| b as char));
    }
    assert(bytes@.take(i as int) =~= bytes@);
    Some(text)
}

/// The text of an optional header value.
fn visible_value(value: &Option<Vec<u8>>) -> (r: Option<Vec<char>>)
    ensures
        match r {
            Some(text) => value matches Some(v) && visible_text(v@) == Some(text@),
            None => value matches Some(v) ==> visible_text(v@) is None,
        },
{
    match value {
        Some(bytes) => visible(bytes),
        None => None,
    }
}

/// The text of the first header with the given lower-case name.
fn visible_header(map: &HeaderMap<HeaderValue>, name: &str) -> (r: Option<Vec<char>>)
    requires
        header_name(name@) is Some,
        lowered(name@) == name@,
    ensures
        match r {
            Some(text) => header_text(header_entries(*map), name@) == Some(text@),
            None => header_text(header_entries(*map), name@) is None,
        },
{
    visible_value(&header_value(map, name))
}

// ------------------------------------------------------------------------------------------
// User agent and sub-resources
// ------------------------------------------------------------------------------------------

/// The user agent that a request names; a missing or unreadable one is the empty text.
pub open spec fn agent_of(entries: Seq<(Seq<char>, Seq<u8>)>) -> Seq<char> {
    match header_text(entries, "user-agent"@) {
        Some(text) => text,
        None => Seq::empty(),
    }
}

/// The user agent that a request names.
pub fn user_agent(headers: &HeaderMap<HeaderValue>) -> (r: String)
    ensures
        r@ == agent_of(header_entries(*headers)),
{
    proof {
        lemma_names_are_lower();
    }
    match visible_header(headers, "user-agent") {
        Some(text) => text_of(&text),
        None => String::new(),
    }
}

/// Whether the text of a `Sec-Fetch-Mode` header is that of a sub-resource.
pub open spec fn subresource_mode(mode: Option<Seq<char>>) -> bool {
    mode matches Some(text) && text != "navigate"@
}

/// Whether a fetch mode is that of a sub-resource.
pub fn is_subresource_mode(mode: Option<&[char]>) -> (r: bool)
    ensures
        r == subresource_mode(
            match mode {
                Some(text) => Some(text@),
                None => None,
            },
        ),
{
    match mode {
        Some(text) => {
            let navigate = chars_of("navigate");
            !same(text, &navigate)
        },
        None => false,
    }
}

/// Whether the request is for a sub-resource (an image, a style sheet) as opposed to a page.
///
/// This goes by the `Sec-Fetch-Mode` header, which older browsers, other programs and malicious
/// clients might not set, or not truthfully.
pub fn is_subresource_request(headers: &HeaderMap<HeaderValue>) -> (r: bool)
    ensures
        r == subresource_mode(header_text(header_entries(*headers), "sec-fetch-mode"@)),
{
    proof {
        lemma_names_are_lower();
    }
    match visible_header(headers, "sec-fetch-mode") {
        Some(text) => is_subresource_mode(Some(&text)),
        None => is_subresource_mode(None),
    }
}

/// The names of headers that are looked up are names, and written in lower case.
pub proof fn lemma_names_are_lower()
    ensures
        lowered("user-agent"@) == "user-agent"@,
        lowered("sec-fetch-mode"@) == "sec-fetch-mode"@,
        lowered("x-real-ip"@) == "x-real-ip"@,
        lowered("x-forwarded-for"@) == "x-forwarded-for"@,
        lowered("forwarded"@) == "forwarded"@,
        lowered("connection"@) == "connection"@,
        lowered("cookie"@) == "cookie"@,
        header_name("user-agent"@) is Some,
        header_name("sec-fetch-mode"@) is Some,
        header_name("x-real-ip"@) is Some,
        header_name("x-forwarded-for"@) is Some,
        header_name("forwarded"@) is Some,
        header_name("connection"@) is Some,
        header_name("cookie"@) is Some,
{
    reveal_strlit("user-agent");
    reveal_strlit("sec-fetch-mode");
    reveal_strlit("x-real-ip");
    reveal_strlit("x-forwarded-for");
    reveal_strlit("forwarded");
    reveal_strlit("connection");
    reveal_strlit("cookie");
    assert(lowered("user-agent"@) =~= "user-agent"@);
    assert(lowered("sec-fetch-mode"@) =~= "sec-fetch-mode"@);
    assert(lowered("x-real-ip"@) =~= "x-real-ip"@);
    assert(lowered("x-forwarded-for"@) =~= "x-forwarded-for"@);
    assert(lowered("forwarded"@) =~= "forwarded"@);
    assert(lowered("connection"@) =~= "connection"@);
    assert(lowered("cookie"@) =~= "cookie"@);
}

// ------------------------------------------------------------------------------------------
// Client address
// ------------------------------------------------------------------------------------------

/// What one parameter of a `Forwarded` header says.
pub enum ForwardedParam {
    /// It has no `=`.
    Malformed,
    /// It is not a `for` directive.
    Other,
    /// It is a `for` directive: the value without its quotes, and the address that the value would
    /// hold if it were a bracketed address or an address with a port.
    For { value: Vec<char>, inner: Option<Vec<char>> },
}

/// What one parameter of a `Forwarded` header says, as text.
pub enum ForwardedParamView {
    Malformed,
    Other,
    For { value: Seq<char>, inner: Option<Seq<char>> },
}

impl View for ForwardedParam {
    type V = ForwardedParamView;

    open spec fn view(&self) -> ForwardedParamView {
        match *self {
            ForwardedParam::Malformed => ForwardedParamView::Malformed,
            ForwardedParam::Other => ForwardedParamView::Other,
            ForwardedParam::For { value, inner } => ForwardedParamView::For {
                value: value@,
                inner: match inner {
                    Some(text) => Some(text@),
                    None => None,
                },
            },
        }
    }
}

/// The part of a value between a leading `[` and the next `]`, or before its last `:`.
pub open spec fn inner_address(value: Seq<char>) -> Option<Seq<char>> {
    if value.len() > 0 && value[0] == '[' && split_once(value.skip(1), ']') is Some {
        Some(split_once(value.skip(1), ']').unwrap().0)
    } else {
        before_last(value, ':')
    }
}

/// What one parameter of a `Forwarded` header says.
pub open spec fn forwarded_param(param: Seq<char>) -> ForwardedParamView {
    match split_once(trimmed(param, white()), '=') {
        Some((key, value)) => if lowered(key) == "for"@ {
            let value = trimmed(value, only('"'));
            ForwardedParamView::For { value, inner: inner_address(value) }
        } else {
            ForwardedParamView::Other
        },
        None => ForwardedParamView::Malformed,
    }
}

/// The address that the parameters of a `Forwarded` header give: that of the first `for` directive,
/// whose value is an address, alone, in brackets or with a port. Where it is none, there is no
/// address; nor is there one behind a parameter without `=`.
pub open spec fn forwarded_address(params: Seq<Seq<char>>) -> Option<Seq<u8>>
    decreases params.len(),
{
    if params.len() == 0 {
        None
    } else {
        match forwarded_param(params[0]) {
            ForwardedParamView::Malformed => None,
            ForwardedParamView::Other => forwarded_address(params.skip(1)),
            ForwardedParamView::For { value, inner } => if ip_of_text(value) is Some {
                ip_of_text(value)
            } else {
                match inner {
                    Some(text) => ip_of_text(text),
                    None => None,
                }
            },
        }
    }
}

/// Reads one parameter of a `Forwarded` header.
pub fn read_forwarded_param(param: &[char]) -> (r: ForwardedParam)
    ensures
        r@ == forwarded_param(param@),
{
    let (key, value) = match cut_once(trim(param), '=') {
        Some(parts) => parts,
        None => {
            return ForwardedParam::Malformed;
        },
    };
    let key = to_lower(key);
    let wanted = chars_of("for");
    if !same(&key, &wanted) {
        return ForwardedParam::Other;
    }
    let value = trim_matches(value, '"');
    let owned = vstd::slice::slice_to_vec(value);
    if value.len() > 0 && value[0] == '[' {
        let rest = &value[1..value.len()];
        assert(rest@ == value@.skip(1));
        if let Some((addr, _)) = cut_once(rest, ']') {
            return ForwardedParam::For {
                value: owned,
                inner: Some(vstd::slice::slice_to_vec(addr)),
            };
        }
    }
    match cut_last(value, ':') {
        Some(addr) => ForwardedParam::For {
            value: owned,
            inner: Some(vstd::slice::slice_to_vec(addr)),
        },
        None => ForwardedParam::For { value: owned, inner: None },
    }
}

/// The address in the first `for` directive of a `Forwarded` header (RFC 7239).
pub fn parse_forwarded_for(header: &str) -> (r: Option<IpAddr>)
    ensures
        match r {
            Some(ip) => forwarded_address(split(header@, seq![',', ';'])) == Some(ip@),
            None => forwarded_address(split(header@, seq![',', ';'])) is None,
        },
{
    let seps = [',', ';'];
    let params = split_at_any(&chars_of(header), &seps);
    let ghost all = views(params@);
    assert(seps@ =~= seq![',', ';']);
    assert(all == split(header@, seq![',', ';']));
    let mut i: usize = 0;
    assert(all.skip(0) =~= all);
    while i < params.len()
        invariant
            i <= params@.len(),
            all == views(params@),
            all == split(header@, seq![',', ';']),
            forwarded_address(all.skip(i as int)) == forwarded_address(all),
        decreases params@.len() - i,
    {
        assert(all.skip(i as int)[0] == params@[i as int]@);
        assert(all.skip(i as int).skip(1) =~= all.skip(i + 1));
        match read_forwarded_param(&params[i]) {
            ForwardedParam::Malformed => {
                return None;
            },
            ForwardedParam::Other => {},
            ForwardedParam::For { value, inner } => {
                if let Some(ip) = parse_ip(text_of(&value).as_str()) {
                    return Some(ip);
                }
                if let Some(text) = inner {
                    return parse_ip(text_of(&text).as_str());
                }
                return None;
            },
        }
        i += 1;
    }
    None
}

/// The address in the text of an `X-Real-IP` header.
pub open spec fn real_ip(text: Option<Seq<char>>) -> Option<Seq<u8>> {
    match text {
        Some(t) => ip_of_text(trimmed(t, white())),
        None => None,
    }
}

/// The leftmost address in the text of an `X-Forwarded-For` header.
pub open spec fn forwarded_for(text: Option<Seq<char>>) -> Option<Seq<u8>> {
    match text {
        Some(t) => ip_of_text(trimmed(split(t, seq![','])[0], white())),
        None => None,
    }
}

/// The address in the text of a `Forwarded` header.
pub open spec fn forwarded(text: Option<Seq<char>>) -> Option<Seq<u8>> {
    match text {
        Some(t) => forwarded_address(split(t, seq![',', ';'])),
        None => None,
    }
}

/// The first of the addresses that is known, or else that of the peer.
pub open spec fn preferred(
    x_real: Option<Seq<u8>>,
    forwarded_for: Option<Seq<u8>>,
    forwarded: Option<Seq<u8>>,
    peer: Seq<u8>,
) -> Seq<u8> {
    match x_real {
        Some(ip) => ip,
        None => match forwarded_for {
            Some(ip) => ip,
            None => match forwarded {
                Some(ip) => ip,
                None => peer,
            },
        },
    }
}

/// The address of the client, by the headers and the peer's address.
pub open spec fn client_address(entries: Seq<(Seq<char>, Seq<u8>)>, peer: Seq<u8>) -> Seq<u8> {
    preferred(
        real_ip(header_text(entries, "x-real-ip"@)),
        forwarded_for(header_text(entries, "x-forwarded-for"@)),
        forwarded(header_text(entries, "forwarded"@)),
        peer,
    )
}

/// The octets of an optional address.
pub open spec fn octets_of(ip: Option<IpAddr>) -> Option<Seq<u8>> {
    match ip {
        Some(a) => Some(a@),
        None => None,
    }
}

/// The first of the addresses that is known, or else that of the peer.
pub fn choose_address(
    x_real: Option<IpAddr>,
    forwarded_for: Option<IpAddr>,
    forwarded: Option<IpAddr>,
    peer: IpAddr,
) -> (r: IpAddr)
    ensures
        r@ == preferred(octets_of(x_real), octets_of(forwarded_for), octets_of(forwarded), peer@),
{
    if let Some(ip) = x_real {
        return ip;
    }
    if let Some(ip) = forwarded_for {
        return ip;
    }
    if let Some(ip) = forwarded {
        return ip;
    }
    peer
}

/// Reads the address in the text of an `X-Real-IP` header.
fn read_real_ip(text: &Option<Vec<char>>) -> (r: Option<IpAddr>)
    ensures
        octets_of(r) == real_ip(
            match *text {
                Some(t) => Some(t@),
                None => None,
            },
        ),
{
    match text {
        Some(t) => parse_ip(text_of(trim(t)).as_str()),
        None => None,
    }
}

/// Reads the leftmost address in the text of an `X-Forwarded-For` header.
fn read_forwarded_for(text: &Option<Vec<char>>) -> (r: Option<IpAddr>)
    ensures
        octets_of(r) == forwarded_for(
            match *text {
                Some(t) => Some(t@),
                None => None,
            },
        ),
{
    match text {
        Some(t) => {
            let seps = [','];
            let parts = split_at_any(t, &seps);
            assert(seps@ =~= seq![',']);
            assert(views(parts@) == split(t@, seq![',']));
            assert(parts@.len() == split(t@, seq![',']).len());
            assert(parts@[0]@ == views(parts@)[0]);
            parse_ip(text_of(trim(&parts[0])).as_str())
        },
        None => None,
    }
}

/// Reads the address in the text of a `Forwarded` header.
fn read_forwarded(text: &Option<Vec<char>>) -> (r: Option<IpAddr>)
    ensures
        octets_of(r) == forwarded(
            match *text {
                Some(t) => Some(t@),
                None => None,
            },
        ),
{
    match text {
        Some(t) => parse_forwarded_for(text_of(t).as_str()),
        None => None,
    }
}

/// The address of the client.
///
/// It is taken from `X-Real-IP`, from the leftmost entry of `X-Forwarded-For`, or from the first
/// `for` directive of `Forwarded`, in that order, and is that of the peer where none of them
/// gives one. A reverse proxy that does not overwrite these headers lets clients forge them.
pub fn client_ip(headers: &HeaderMap<HeaderValue>, peer_ip: IpAddr) -> (r: IpAddr)
    ensures
        r@ == client_address(header_entries(*headers), peer_ip@),
{
    proof {
        lemma_names_are_lower();
    }
    let x_real = read_real_ip(&visible_header(headers, "x-real-ip"));
    let forwarded_for = read_forwarded_for(&visible_header(headers, "x-forwarded-for"));
    let forwarded = read_forwarded(&visible_header(headers, "forwarded"));
    choose_address(x_real, forwarded_for, forwarded, peer_ip)
}

// ------------------------------------------------------------------------------------------
// Cookies
// ------------------------------------------------------------------------------------------

/// The values that the given name has among `;`-separated pairs.
pub open spec fn pair_values(pairs: Seq<Seq<char>>, name: Seq<char>) -> Seq<Seq<char>>
    decreases pairs.len(),
{
    if pairs.len() == 0 {
        Seq::empty()
    } else {
        let before = pair_values(pairs.drop_last(), name);
        match split_once(trimmed(pairs.last(), white()), '=') {
            Some((key, value)) => if key == name {
                before.push(value)
            } else {
                before
            },
            None => before,
        }
    }
}

/// The values of a cookie in the values of the `Cookie` headers of a request, in order. Headers
/// that are not visible text are passed over.
pub open spec fn cookies(headers: Seq<Seq<u8>>, name: Seq<char>) -> Seq<Seq<char>>
    decreases headers.len(),
{
    if headers.len() == 0 {
        Seq::empty()
    } else {
        let before = cookies(headers.drop_last(), name);
        match visible_text(headers.last()) {
            Some(text) => before + pair_values(split(text, seq![';']), name),
            None => before,
        }
    }
}

/// Appends the values of a cookie in one `Cookie` header.
fn push_cookie_values(text: &[char], name: &[char], found: &mut Vec<String>)
    ensures
        texts(final(found)@) == texts(old(found)@) + pair_values(split(text@, seq![';']), name@),
{
    let seps = [';'];
    let pairs = split_at_any(text, &seps);
    let ghost all = views(pairs@);
    let ghost before = texts(found@);
    assert(seps@ =~= seq![';']);
    let mut i: usize = 0;
    assert(before + pair_values(all.take(0), name@) =~= before);
    while i < pairs.len()
        invariant
            i <= pairs@.len(),
            all == views(pairs@),
            texts(found@) == before + pair_values(all.take(i as int), name@),
        decreases pairs@.len() - i,
    {
        assert(all.take(i + 1).drop_last() =~= all.take(i as int));
        assert(all.take(i + 1).last() == pairs@[i as int]@);
        let ghost so_far = found@;
        if let Some((key, value)) = cut_once(trim(&pairs[i]), '=') {
            if same(key, name) {
                let value = text_of(value);
                found.push(value);
                assert(texts(found@) =~= texts(so_far).push(value@));
                assert(before + pair_values(all.take(i as int), name@).push(value@) =~= (before
                    + pair_values(all.take(i as int), name@)).push(value@));
            }
        }
        i += 1;
    }
    assert(all.take(i as int) =~= all);
}

/// The values of a cookie in the given values of `Cookie` headers.
pub fn cookies_in(headers: &Vec<Vec<u8>>, name: &str) -> (r: Vec<String>)
    ensures
        texts(r@) == cookies(bytes_views(headers@), name@),
{
    let name = chars_of(name);
    let ghost all = bytes_views(headers@);
    let mut found: Vec<String> = Vec::new();
    let mut i: usize = 0;
    assert(texts(found@) =~= cookies(all.take(0), name@));
    while i < headers.len()
        invariant
            i <= headers@.len(),
            all == bytes_views(headers@),
            texts(found@) == cookies(all.take(i as int), name@),
        decreases headers@.len() - i,
    {
        assert(all.take(i + 1).drop_last() =~= all.take(i as int));
        assert(all.take(i + 1).last() == headers@[i as int]@);
        if let Some(text) = visible(&headers[i]) {
            push_cookie_values(&text, &name, &mut found);
        }
        i += 1;
    }
    assert(all.take(i as int) =~= all);
    found
}

/// All values of a cookie in the `Cookie` headers of a request.
pub fn cookie_values(headers: &HeaderMap<HeaderValue>, name: &str) -> (r: Vec<String>)
    ensures
        texts(r@) == cookies(values_of(header_entries(*headers), "cookie"@), name@),
{
    proof {
        lemma_names_are_lower();
    }
    cookies_in(&header_values(headers, "cookie"), name)
}

// ------------------------------------------------------------------------------------------
// Headers that are passed on
// ------------------------------------------------------------------------------------------

/// Whether a header only applies to a single connection, whoever names it.
pub open spec fn is_hop_by_hop(name: Seq<char>) -> bool {
    ||| name == "connection"@
    ||| name == "proxy-authenticate"@
    ||| name == "proxy-authorization"@
    ||| name == "te"@
    ||| name == "trailer"@
    ||| name == "transfer-encoding"@
    ||| name == "upgrade"@
    ||| name == "keep-alive"@
}

/// The header names among the items of a list.
pub open spec fn names_in(items: Seq<Seq<char>>) -> Seq<Seq<char>>
    decreases items.len(),
{
    if items.len() == 0 {
        Seq::empty()
    } else {
        let before = names_in(items.drop_last());
        match header_name(trimmed(items.last(), white())) {
            Some(name) => before.push(name),
            None => before,
        }
    }
}

/// The header names that the values of the `Connection` headers list.
pub open spec fn nominated(connection: Seq<Seq<u8>>) -> Seq<Seq<char>>
    decreases connection.len(),
{
    if connection.len() == 0 {
        Seq::empty()
    } else {
        let before = nominated(connection.drop_last());
        match visible_text(connection.last()) {
            Some(text) => before + names_in(split(text, seq![','])),
            None => before,
        }
    }
}

/// Whether a header may be passed on, where `Connection` names the given ones.
pub open spec fn passes(skip: Seq<Seq<char>>, name: Seq<char>) -> bool {
    !is_hop_by_hop(name) && !skip.contains(name)
}

/// The headers that may be passed on, in order.
pub open spec fn passed_on(
    skip: Seq<Seq<char>>,
    entries: Seq<(Seq<char>, Seq<u8>)>,
) -> Seq<(Seq<char>, Seq<u8>)>
    decreases entries.len(),
{
    if entries.len() == 0 {
        Seq::empty()
    } else {
        let before = passed_on(skip, entries.drop_last());
        if passes(skip, entries.last().0) {
            before.push(entries.last())
        } else {
            before
        }
    }
}

/// The headers of a message that may be passed on.
pub open spec fn forwardable(entries: Seq<(Seq<char>, Seq<u8>)>) -> Seq<(Seq<char>, Seq<u8>)> {
    passed_on(nominated(values_of(entries, "connection"@)), entries)
}

/// Whether a header only applies to a single connection.
pub fn hop_by_hop(name: &str) -> (r: bool)
    ensures
        r == is_hop_by_hop(name@),
{
    same_text(name, "connection") || same_text(name, "proxy-authenticate") || same_text(
        name,
        "proxy-authorization",
    ) || same_text(name, "te") || same_text(name, "trailer") || same_text(name, "transfer-encoding")
        || same_text(name, "upgrade") || same_text(name, "keep-alive")
}

/// Appends the header names that one `Connection` header lists.
fn push_names(text: &[char], names: &mut Vec<String>)
    ensures
        texts(final(names)@) == texts(old(names)@) + names_in(split(text@, seq![','])),
{
    let seps = [','];
    let items = split_at_any(text, &seps);
    let ghost all = views(items@);
    let ghost before = texts(names@);
    assert(seps@ =~= seq![',']);
    let mut i: usize = 0;
    assert(before + names_in(all.take(0)) =~= before);
    while i < items.len()
        invariant
            i <= items@.len(),
            all == views(items@),
            texts(names@) == before + names_in(all.take(i as int)),
        decreases items@.len() - i,
    {
        assert(all.take(i + 1).drop_last() =~= all.take(i as int));
        assert(all.take(i + 1).last() == items@[i as int]@);
        let ghost so_far = names@;
        if let Some(name) = parse_header_name(text_of(trim(&items[i])).as_str()) {
            names.push(name);
            assert(texts(names@) =~= texts(so_far).push(name@));
            assert(before + names_in(all.take(i as int)).push(name@) =~= (before + names_in(
                all.take(i as int),
            )).push(name@));
        }
        i += 1;
    }
    assert(all.take(i as int) =~= all);
}

/// The header names that `Connection` headers with the given values list.
pub fn connection_names(connection: &Vec<Vec<u8>>) -> (r: Vec<String>)
    ensures
        texts(r@) == nominated(bytes_views(connection@)),
{
    let ghost all = bytes_views(connection@);
    let mut names: Vec<String> = Vec::new();
    let mut i: usize = 0;
    assert(texts(names@) =~= nominated(all.take(0)));
    while i < connection.len()
        invariant
            i <= connection@.len(),
            all == bytes_views(connection@),
            texts(names@) == nominated(all.take(i as int)),
        decreases connection@.len() - i,
    {
        assert(all.take(i + 1).drop_last() =~= all.take(i as int));
        assert(all.take(i + 1).last() == connection@[i as int]@);
        if let Some(text) = visible(&connection[i]) {
            push_names(&text, &mut names);
        }
        i += 1;
    }
    assert(all.take(i as int) =~= all);
    names
}

/// The given headers without those of a single connection and without the given names.
pub fn keep_passing(skip: &Vec<String>, entries: &Vec<(String, Vec<u8>)>) -> (r: Vec<
    (String, Vec<u8>),
>)
    ensures
        entries_view(r@) == passed_on(texts(skip@), entries_view(entries@)),
{
    let ghost all = entries_view(entries@);
    let mut kept: Vec<(String, Vec<u8>)> = Vec::new();
    let mut i: usize = 0;
    assert(entries_view(kept@) =~= passed_on(texts(skip@), all.take(0)));
    while i < entries.len()
        invariant
            i <= entries@.len(),
            all == entries_view(entries@),
            entries_view(kept@) == passed_on(texts(skip@), all.take(i as int)),
        decreases entries@.len() - i,
    {
        assert(all.take(i + 1).drop_last() =~= all.take(i as int));
        assert(all.take(i + 1).last() == (entries@[i as int].0@, entries@[i as int].1@));
        let ghost so_far = kept@;
        let name = &entries[i].0;
        if !hop_by_hop(name.as_str()) && !lists(skip, name.as_str()) {
            let value = vstd::slice::slice_to_vec(entries[i].1.as_slice());
            let entry = (name.clone(), value);
            kept.push(entry);
            assert(entries_view(kept@) =~= entries_view(so_far).push((entry.0@, entry.1@)));
        }
        i += 1;
    }
    assert(all.take(i as int) =~= all);
    kept
}

/// The headers that are allowed through the proxy: all but those that only apply to a direct
/// connection, among them those that the `Connection` header names itself (RFC 9110).
pub fn filter_headers(headers: &HeaderMap<HeaderValue>) -> (r: Vec<(String, Vec<u8>)>)
    ensures
        entries_view(r@) == forwardable(header_entries(*headers)),
{
    proof {
        lemma_names_are_lower();
    }
    let skip = connection_names(&header_values(headers, "connection"));
    keep_passing(&skip, &all_headers(headers))
}

// ------------------------------------------------------------------------------------------
// Laws
// ------------------------------------------------------------------------------------------

proof fn lemma_passed_on(
    skip: Seq<Seq<char>>,
    entries: Seq<(Seq<char>, Seq<u8>)>,
    entry: (Seq<char>, Seq<u8>),
)
    ensures
        passed_on(skip, entries).contains(entry) <==> entries.contains(entry) && passes(
            skip,
            entry.0,
        ),
    decreases entries.len(),
{
    if entries.len() > 0 {
        let rest = entries.drop_last();
        let last = entries.last();
        let before = passed_on(skip, rest);
        lemma_passed_on(skip, rest, entry);
        assert(entries =~= rest.push(last));
        assert(entries.contains(entry) <==> rest.contains(entry) || entry == last) by {
            if rest.contains(entry) {
                let i = choose|i: int| 0 <= i < rest.len() && rest[i] == entry;
                assert(entries[i] == entry);
            }
            if entry == last {
                assert(entries[entries.len() - 1] == entry);
            }
        }
        if passes(skip, last.0) {
            let after = before.push(last);
            assert(after.contains(entry) <==> before.contains(entry) || entry == last) by {
                if before.contains(entry) {
                    let i = choose|i: int| 0 <= i < before.len() && before[i] == entry;
                    assert(after[i] == entry);
                }
                if entry == last {
                    assert(after[after.len() - 1] == entry);
                }
            }
        }
    }
}

/// A header is passed on exactly where the message has it, it is not one of those that only apply
/// to a single connection, and no `Connection` header names it. None is made up.
pub proof fn law_just_end_to_end_headers_pass(
    entries: Seq<(Seq<char>, Seq<u8>)>,
    entry: (Seq<char>, Seq<u8>),
)
    ensures
        forwardable(entries).contains(entry) <==> {
            &&& entries.contains(entry)
            &&& !is_hop_by_hop(entry.0)
            &&& !nominated(values_of(entries, "connection"@)).contains(entry.0)
        },
{
    lemma_passed_on(nominated(values_of(entries, "connection"@)), entries, entry);
}

proof fn lemma_no_values(entries: Seq<(Seq<char>, Seq<u8>)>, name: Seq<char>)
    requires
        forall|i: int| 0 <= i < entries.len() ==> (#[trigger] entries[i]).0 != name,
    ensures
        values_of(entries, name) == Seq::<Seq<u8>>::empty(),
    decreases entries.len(),
{
    if entries.len() > 0 {
        let rest = entries.drop_last();
        assert forall|i: int| 0 <= i < rest.len() implies (#[trigger] rest[i]).0 != name by {
            assert(rest[i] == entries[i]);
        }
        lemma_no_values(rest, name);
        assert(entries[entries.len() - 1].0 != name);
    }
}

proof fn lemma_all_pass(skip: Seq<Seq<char>>, entries: Seq<(Seq<char>, Seq<u8>)>)
    requires
        forall|i: int| 0 <= i < entries.len() ==> passes(skip, (#[trigger] entries[i]).0),
    ensures
        passed_on(skip, entries) == entries,
    decreases entries.len(),
{
    if entries.len() > 0 {
        let rest = entries.drop_last();
        assert forall|i: int| 0 <= i < rest.len() implies passes(skip, (#[trigger] rest[i]).0) by {
            assert(rest[i] == entries[i]);
        }
        lemma_all_pass(skip, rest);
        assert(passes(skip, entries[entries.len() - 1].0));
        assert(rest.push(entries.last()) =~= entries);
    }
}

/// What one proxy passes on, the next one passes on unchanged.
pub proof fn law_filtering_twice_changes_nothing(entries: Seq<(Seq<char>, Seq<u8>)>)
    ensures
        forwardable(forwardable(entries)) == forwardable(entries),
{
    let once = forwardable(entries);
    assert forall|i: int| 0 <= i < once.len() implies !is_hop_by_hop((#[trigger] once[i]).0) by {
        law_just_end_to_end_headers_pass(entries, once[i]);
        assert(once.contains(once[i]));
    }
    assert forall|i: int| 0 <= i < once.len() implies (#[trigger] once[i]).0 != "connection"@ by {
        assert(!is_hop_by_hop(once[i].0));
    }
    lemma_no_values(once, "connection"@);
    let skip = nominated(values_of(once, "connection"@));
    assert(skip =~= Seq::empty());
    assert forall|i: int| 0 <= i < once.len() implies passes(skip, (#[trigger] once[i]).0) by {
        assert(!is_hop_by_hop(once[i].0));
    }
    lemma_all_pass(skip, once);
}

/// The values of a cookie are those of all the `Cookie` headers, one header after the other.
pub proof fn law_cookies_add_up(first: Seq<Seq<u8>>, second: Seq<Seq<u8>>, name: Seq<char>)
    ensures
        cookies(first + second, name) == cookies(first, name) + cookies(second, name),
    decreases second.len(),
{
    if second.len() == 0 {
        assert(first + second =~= first);
        assert(cookies(first, name) + cookies(second, name) =~= cookies(first, name));
    } else {
        let rest = second.drop_last();
        law_cookies_add_up(first, rest, name);
        assert((first + second).drop_last() =~= first + rest);
        assert((first + second).last() == second.last());
        match visible_text(second.last()) {
            Some(text) => {
                let more = pair_values(split(text, seq![';']), name);
                assert((cookies(first, name) + cookies(rest, name)) + more =~= cookies(first, name)
                    + (cookies(rest, name) + more));
            },
            None => {},
        }
    }
}

/// `X-Real-IP` goes before `X-Forwarded-For`, that before `Forwarded`, and any of them before the
/// peer; without a usable one of them the client is the peer.
pub proof fn law_address_precedence(entries: Seq<(Seq<char>, Seq<u8>)>, peer: Seq<u8>)
    ensures
        ({
            let x_real = real_ip(header_text(entries, "x-real-ip"@));
            let listed = forwarded_for(header_text(entries, "x-forwarded-for"@));
            let directive = forwarded(header_text(entries, "forwarded"@));
            let client = client_address(entries, peer);
            &&& x_real is Some ==> client == x_real.unwrap()
            &&& x_real is None && listed is Some ==> client == listed.unwrap()
            &&& x_real is None && listed is None && directive is Some ==> client
                == directive.unwrap()
            &&& x_real is None && listed is None && directive is None ==> client == peer
        }),
{
}

/// The values of a name are those of the headers that have it, in order.
pub proof fn law_values_are_those_of_the_name(
    entries: Seq<(Seq<char>, Seq<u8>)>,
    name: Seq<char>,
)
    ensures
        values_of(entries, name) == entries.filter(
            |e: (Seq<char>, Seq<u8>)| e.0 == name,
        ).map_values(|e: (Seq<char>, Seq<u8>)| e.1),
    decreases entries.len(),
{
    let named = |e: (Seq<char>, Seq<u8>)| e.0 == name;
    let value = |e: (Seq<char>, Seq<u8>)| e.1;
    reveal(Seq::filter);
    if entries.len() > 0 {
        let rest = entries.drop_last();
        law_values_are_those_of_the_name(rest, name);
        let found = rest.filter(named);
        assert(found.push(entries.last()).map_values(value) =~= found.map_values(value).push(
            value(entries.last()),
        ));
    }
    assert(values_of(entries, name) =~= entries.filter(named).map_values(value));
}

/// The text of a value is its bytes, one character for each, where all of them are visible, spaces
/// or tabs; and there is no other limit.
pub proof fn law_visible_text_is_ascii(bytes: Seq<u8>, i: int)
    ensures
        visible_text(bytes) is Some <==> forall|k: int|
            0 <= k < bytes.len() ==> (32 <= #[trigger] bytes[k] <= 126 || bytes[k] == 9),
        visible_text(bytes) matches Some(text) ==> text.len() == bytes.len() && (0 <= i
            < bytes.len() ==> text[i] as int == bytes[i]),
{
}

/// A text is the name of a header exactly where it is made of letters, digits and the marks that a
/// token may hold, at least one and at most as many as a length of two bytes counts. The name is in
/// lower case.
pub proof fn law_header_names_are_tokens(text: Seq<char>)
    ensures
        header_name(text) is Some <==> {
            &&& 1 <= text.len() <= 65535
            &&& forall|i: int|
                0 <= i < text.len() ==> {
                    let c = #[trigger] text[i];
                    ||| '0' <= c <= '9'
                    ||| 'A' <= c <= 'Z'
                    ||| 'a' <= c <= 'z'
                    ||| c == '!' || c == '#' || c == '$' || c == '%' || c == '&' || c == '\''
                    ||| c == '*' || c == '+' || c == '-' || c == '.' || c == '^' || c == '_'
                    ||| c == '`' || c == '|' || c == '~'
                }
        },
        header_name(text) matches Some(name) ==> name == lowered(text),
{
    assert forall|i: int| 0 <= i < text.len() implies is_token_char(#[trigger] text[i]) == ({
        let c = text[i];
        ||| '0' <= c <= '9'
        ||| 'A' <= c <= 'Z'
        ||| 'a' <= c <= 'z'
        ||| c == '!' || c == '#' || c == '$' || c == '%' || c == '&' || c == '\''
        ||| c == '*' || c == '+' || c == '-' || c == '.' || c == '^' || c == '_'
        ||| c == '`' || c == '|' || c == '~'
    }) by {
        lemma_token_char(text[i]);
    }
}

proof fn lemma_token_char(c: char)
    ensures
        is_token_char(c) == ({
            ||| '0' <= c <= '9'
            ||| 'A' <= c <= 'Z'
            ||| 'a' <= c <= 'z'
            ||| c == '!' || c == '#' || c == '$' || c == '%' || c == '&' || c == '\''
            ||| c == '*' || c == '+' || c == '-' || c == '.' || c == '^' || c == '_'
            ||| c == '`' || c == '|' || c == '~'
        }),
{
}

/// The user agent is the text of the first header of that name, and empty where there is none or it
/// is no text. A request is for a sub-resource exactly where the first `Sec-Fetch-Mode` is text
/// other than `navigate`.
pub proof fn law_agent_and_mode_are_read(
    headers: HeaderMap<HeaderValue>,
    agent: String,
    subresource: bool,
)
    requires
        call_ensures(user_agent, (&headers,), agent),
        call_ensures(is_subresource_request, (&headers,), subresource),
    ensures
        ({
            let agents = values_of(header_entries(headers), "user-agent"@);
            agent@ == if agents.len() > 0 && visible_text(agents[0]) is Some {
                visible_text(agents[0]).unwrap()
            } else {
                Seq::empty()
            }
        }),
        ({
            let modes = values_of(header_entries(headers), "sec-fetch-mode"@);
            subresource <==> modes.len() > 0 && visible_text(modes[0]) is Some && visible_text(
                modes[0],
            ).unwrap() != "navigate"@
        }),
{
}

/// Where the first `X-Real-IP` is the text of an address, of either family and with white space
/// around it or not, the client has just that address. Else, where what stands before the first
/// comma of the first `X-Forwarded-For` is one, it has that. Else it has the address that the first
/// `Forwarded` gives, and that of the peer where it gives none.
pub proof fn law_client_address_is_found(
    headers: HeaderMap<HeaderValue>,
    peer_ip: IpAddr,
    client: IpAddr,
    leftmost: Seq<char>,
)
    requires
        call_ensures(client_ip, (&headers, peer_ip), client),
        !leftmost.contains(','),
        ({
            let lists = values_of(header_entries(headers), "x-forwarded-for"@);
            lists.len() > 0 ==> (visible_text(lists[0]) matches Some(t) ==> t == leftmost || t
                == leftmost + seq![','] + t.skip(leftmost.len() as int + 1))
        }),
    ensures
        ({
            let entries = header_entries(headers);
            let texts_of = |name: Seq<char>|
                if values_of(entries, name).len() > 0 {
                    visible_text(values_of(entries, name)[0])
                } else {
                    None
                };
            let single = texts_of("x-real-ip"@);
            let list = texts_of("x-forwarded-for"@);
            let directives = texts_of("forwarded"@);
            let from_single = if single is Some {
                ip_of_text(trimmed(single.unwrap(), white()))
            } else {
                None
            };
            let from_list = if list is Some {
                ip_of_text(trimmed(leftmost, white()))
            } else {
                None
            };
            let from_directives = if directives is Some {
                forwarded_address(split(directives.unwrap(), seq![',', ';']))
            } else {
                None
            };
            &&& from_single is Some ==> client@ == from_single.unwrap()
            &&& from_single is None && from_list is Some ==> client@ == from_list.unwrap()
            &&& from_single is None && from_list is None && from_directives is Some ==> client@
                == from_directives.unwrap()
            &&& from_single is None && from_list is None && from_directives is None ==> client@
                == peer_ip@
        }),
{
    let lists = values_of(header_entries(headers), "x-forwarded-for"@);
    if lists.len() > 0 && visible_text(lists[0]) is Some {
        let t = visible_text(lists[0]).unwrap();
        let comma = seq![','];
        assert(comma[0] == ',');
        assert forall|i: int| 0 <= i < leftmost.len() implies !comma.contains(
            #[trigger] leftmost[i],
        ) by {
            assert(leftmost.contains(leftmost[i]));
        }
        let rest = t.skip(leftmost.len() as int + 1);
        law_separators_split(leftmost, ',', rest, comma);
        assert(split(leftmost, comma)[0] == leftmost);
        assert(split(t, comma)[0] == leftmost);
    }
}

/// What the parameters of a `Forwarded` header give, by the first of them. Without a `=` in it,
/// there is no address. A key other than `for`, in either case, leaves it to the parameters behind.
/// The value of `for`, without the quotes around it, decides alone: it is an address, or else holds
/// one in brackets, or else has one before its last colon, or else there is none.
pub proof fn law_first_for_directive_decides(
    param: Seq<char>,
    rest: Seq<Seq<char>>,
    key: Seq<char>,
    value: Seq<char>,
    inner: Seq<char>,
    tail: Seq<char>,
)
    ensures
        forwarded_address(Seq::empty()) is None,
        !trimmed(param, white()).contains('=') ==> forwarded_address(seq![param] + rest) is None,
        trimmed(param, white()) == key + seq!['='] + value && !key.contains('=') ==> {
            let r = forwarded_address(seq![param] + rest);
            let v = trimmed(value, only('"'));
            let bracketed = v.len() > 0 && v[0] == '[' && v.skip(1).contains(']');
            &&& lowered(key) != "for"@ ==> r == forwarded_address(rest)
            &&& lowered(key) == "for"@ && ip_of_text(v) is Some ==> r == ip_of_text(v)
            &&& lowered(key) == "for"@ && ip_of_text(v) is None ==> {
                &&& v == seq!['['] + inner + seq![']'] + tail && !inner.contains(']') ==> r
                    == ip_of_text(inner)
                &&& !bracketed && v == inner + seq![':'] + tail && !tail.contains(':') ==> r
                    == ip_of_text(inner)
                &&& !bracketed && !v.contains(':') ==> r is None
            }
        },
{
    let all = seq![param] + rest;
    assert(all.skip(1) =~= rest);
    assert(all[0] == param);
    let p = trimmed(param, white());
    law_cut_is_at_the_first(p, '=', Seq::empty());
    if p == key + seq!['='] + value && !key.contains('=') {
        law_cut_is_at_the_first(key, '=', value);
        let v = trimmed(value, only('"'));
        let after = v.skip(1);
        if v == seq!['['] + inner + seq![']'] + tail && !inner.contains(']') {
            assert(after =~= inner + seq![']'] + tail);
            law_cut_is_at_the_first(inner, ']', tail);
        }
        if !after.contains(']') {
            law_cut_is_at_the_first(after, ']', Seq::empty());
        }
        law_cut_is_at_the_last(inner, ':', tail);
        law_cut_is_at_the_last(v, ':', Seq::empty());
    }
}

/// Reading a `Forwarded` header looks at its parameters, which commas and semicolons part.
pub proof fn law_forwarded_is_read(header: &str, r: Option<IpAddr>)
    requires
        call_ensures(parse_forwarded_for, (header,), r),
    ensures
        octets_of(r) == forwarded_address(split(header@, seq![',', ';'])),
        r matches Some(ip) ==> forwarded_address(split(header@, seq![',', ';'])) == Some(ip@),
        r is None ==> forwarded_address(split(header@, seq![',', ';'])) is None,
{
}

/// A cookie header gives the values of its pairs with the given name, in order: the pairs are
/// parted by semicolons, white space around one does not count, and its value is all that stands
/// behind its first `=`. Without a `=` it has none, and names are compared as they are.
pub proof fn law_cookies_are_pairs(
    header: Seq<u8>,
    pairs: Seq<Seq<char>>,
    more: Seq<Seq<char>>,
    pair: Seq<char>,
    key: Seq<char>,
    value: Seq<char>,
    name: Seq<char>,
)
    ensures
        visible_text(header) is None ==> cookies(seq![header], name) == Seq::<Seq<char>>::empty(),
        visible_text(header) matches Some(text) ==> cookies(seq![header], name) == pair_values(
            split(text, seq![';']),
            name,
        ),
        pair_values(pairs + more, name) == pair_values(pairs, name) + pair_values(more, name),
        trimmed(pair, white()) == key + seq!['='] + value && !key.contains('=') ==> pair_values(
            seq![pair],
            name,
        ) == if key == name {
            seq![value]
        } else {
            Seq::empty()
        },
        !trimmed(pair, white()).contains('=') ==> pair_values(seq![pair], name) == Seq::<
            Seq<char>,
        >::empty(),
{
    let none = Seq::<Seq<char>>::empty();
    let one = seq![header];
    assert(one.drop_last() =~= Seq::empty());
    assert(one.last() == header);
    assert(cookies(one.drop_last(), name) == none);
    if visible_text(header) is Some {
        let found = pair_values(split(visible_text(header).unwrap(), seq![';']), name);
        assert(none + found =~= found);
    }
    lemma_pairs_add_up(pairs, more, name);
    let p = trimmed(pair, white());
    let single = seq![pair];
    assert(single.drop_last() =~= none);
    assert(single.last() == pair);
    assert(pair_values(single.drop_last(), name) == none);
    assert(none.push(value) =~= seq![value]);
    law_cut_is_at_the_first(key, '=', value);
    law_cut_is_at_the_first(p, '=', Seq::empty());
}

proof fn lemma_pairs_add_up(pairs: Seq<Seq<char>>, more: Seq<Seq<char>>, name: Seq<char>)
    ensures
        pair_values(pairs + more, name) == pair_values(pairs, name) + pair_values(more, name),
    decreases more.len(),
{
    let before = pair_values(pairs, name);
    if more.len() == 0 {
        assert(pairs + more =~= pairs);
        assert(before + pair_values(more, name) =~= before);
    } else {
        let rest = more.drop_last();
        lemma_pairs_add_up(pairs, rest, name);
        assert((pairs + more).drop_last() =~= pairs + rest);
        assert((pairs + more).last() == more.last());
        match split_once(trimmed(more.last(), white()), '=') {
            Some((key, value)) => {
                if key == name {
                    assert((before + pair_values(rest, name)).push(value) =~= before + pair_values(
                        rest,
                        name,
                    ).push(value));
                }
            },
            None => {},
        }
    }
}

/// The cookies of a request are those in all of its `Cookie` headers.
pub proof fn law_cookies_are_read(
    headers: HeaderMap<HeaderValue>,
    name: &str,
    values: Vec<String>,
)
    requires
        call_ensures(cookie_values, (&headers, name), values),
    ensures
        texts(values@) == cookies(values_of(header_entries(headers), "cookie"@), name@),
{
}

/// The `Connection` headers name a header exactly where one of them is text and the header's name
/// stands in it, in either case, between commas and with white space around it or not.
pub proof fn law_connection_names_headers(connection: Seq<Seq<u8>>, name: Seq<char>)
    ensures
        nominated(connection).contains(name) <==> exists|i: int, j: int|
            0 <= i < connection.len() && #[trigger] names_at(connection[i], j, name),
    decreases connection.len(),
{
    if connection.len() > 0 {
        let rest = connection.drop_last();
        let last = connection.last();
        let n = connection.len() - 1;
        law_connection_names_headers(rest, name);
        let before = nominated(rest);
        let all = nominated(connection);
        if all.contains(name) {
            let k = choose|k: int| 0 <= k < all.len() && all[k] == name;
            if k < before.len() {
                assert(before[k] == name);
                let (i, j) = choose|i: int, j: int|
                    0 <= i < rest.len() && #[trigger] names_at(rest[i], j, name);
                assert(names_at(connection[i], j, name));
            } else {
                let pieces = split(visible_text(last).unwrap(), seq![',']);
                assert(names_in(pieces)[k - before.len()] == name);
                lemma_names_in(pieces, name);
                let j = choose|j: int|
                    0 <= j < pieces.len() && header_name(trimmed(#[trigger] pieces[j], white()))
                        == Some(name);
                assert(names_at(connection[n], j, name));
            }
        }
        if exists|i: int, j: int|
            0 <= i < connection.len() && #[trigger] names_at(connection[i], j, name) {
            let (i, j) = choose|i: int, j: int|
                0 <= i < connection.len() && #[trigger] names_at(
                    connection[i],
                    j,
                    name,
                );
            if i < n {
                assert(rest[i] == connection[i]);
                assert(names_at(rest[i], j, name));
                let k = choose|k: int| 0 <= k < before.len() && before[k] == name;
                assert(all[k] == name);
            } else {
                let pieces = split(visible_text(last).unwrap(), seq![',']);
                lemma_names_in(pieces, name);
                assert(header_name(trimmed(pieces[j], white())) == Some(name));
                let found = names_in(pieces);
                let k = choose|k: int| 0 <= k < found.len() && found[k] == name;
                assert(all[before.len() + k] == name);
            }
        }
    }
}

/// Whether a `Connection` header names a header at a place.
pub open spec fn names_at(connection: Seq<u8>, j: int, name: Seq<char>) -> bool {
    &&& visible_text(connection) is Some
    &&& 0 <= j < split(visible_text(connection).unwrap(), seq![',']).len()
    &&& header_name(
        trimmed(split(visible_text(connection).unwrap(), seq![','])[j], white()),
    ) == Some(name)
}

proof fn lemma_names_in(items: Seq<Seq<char>>, name: Seq<char>)
    ensures
        names_in(items).contains(name) <==> exists|j: int|
            0 <= j < items.len() && header_name(trimmed(#[trigger] items[j], white())) == Some(name),
    decreases items.len(),
{
    if items.len() > 0 {
        let rest = items.drop_last();
        let n = items.len() - 1;
        lemma_names_in(rest, name);
        let before = names_in(rest);
        let all = names_in(items);
        if all.contains(name) {
            let k = choose|k: int| 0 <= k < all.len() && all[k] == name;
            if k < before.len() {
                assert(before[k] == name);
                let j = choose|j: int|
                    0 <= j < rest.len() && header_name(trimmed(#[trigger] rest[j], white()))
                        == Some(name);
                assert(items[j] == rest[j]);
            } else {
                assert(header_name(trimmed(items[n], white())) == Some(name));
            }
        }
        if exists|j: int|
            0 <= j < items.len() && header_name(trimmed(#[trigger] items[j], white())) == Some(
                name,
            ) {
            let j = choose|j: int|
                0 <= j < items.len() && header_name(trimmed(#[trigger] items[j], white())) == Some(
                    name,
                );
            if j < n {
                assert(rest[j] == items[j]);
                let k = choose|k: int| 0 <= k < before.len() && before[k] == name;
                assert(all[k] == name);
            } else {
                assert(all[before.len() as int] == name);
            }
        }
    }
}

proof fn lemma_filtered(skip: Seq<Seq<char>>, entries: Seq<(Seq<char>, Seq<u8>)>)
    ensures
        passed_on(skip, entries) == entries.filter(
            |e: (Seq<char>, Seq<u8>)| passes(skip, e.0),
        ),
    decreases entries.len(),
{
    reveal(Seq::filter);
    if entries.len() > 0 {
        lemma_filtered(skip, entries.drop_last());
    }
}

/// A message is passed on with all of its headers, unchanged and in order, but for those that a
/// `Connection` header names and for the eight that only apply to a direct connection. Every other
/// header is passed on, those of cookies, authorization and content types among them.
pub proof fn law_all_other_headers_pass(
    headers: HeaderMap<HeaderValue>,
    sent: Vec<(String, Vec<u8>)>,
)
    requires
        call_ensures(filter_headers, (&headers,), sent),
    ensures
        ({
            let entries = header_entries(headers);
            let named = nominated(values_of(entries, "connection"@));
            entries_view(sent@) == entries.filter(
                |e: (Seq<char>, Seq<u8>)|
                    {
                        &&& e.0 != "connection"@
                        &&& e.0 != "proxy-authenticate"@
                        &&& e.0 != "proxy-authorization"@
                        &&& e.0 != "te"@
                        &&& e.0 != "trailer"@
                        &&& e.0 != "transfer-encoding"@
                        &&& e.0 != "upgrade"@
                        &&& e.0 != "keep-alive"@
                        &&& !named.contains(e.0)
                    },
            )
        }),
{
    let entries = header_entries(headers);
    let named = nominated(values_of(entries, "connection"@));
    lemma_filtered(named, entries);
    assert((|e: (Seq<char>, Seq<u8>)| passes(named, e.0)) =~= (|e: (Seq<char>, Seq<u8>)|
        {
            &&& e.0 != "connection"@
            &&& e.0 != "proxy-authenticate"@
            &&& e.0 != "proxy-authorization"@
            &&& e.0 != "te"@
            &&& e.0 != "trailer"@
            &&& e.0 != "transfer-encoding"@
            &&& e.0 != "upgrade"@
            &&& e.0 != "keep-alive"@
            &&& !named.contains(e.0)
        }));
}

/// The views of a list of headers are the names and the values, one for each and in order.
pub proof fn law_entries_are_names_and_values(list: Seq<(String, Vec<u8>)>, i: int)
    ensures
        entries_view(list).len() == list.len(),
        0 <= i < list.len() ==> entries_view(list)[i].0 == list[i].0@ && entries_view(list)[i].1
            == list[i].1@,
{
}

} // verus!
