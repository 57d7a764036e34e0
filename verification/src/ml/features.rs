//! The numeric features of a request.

use crate::headers::{header_entries, header_value, lemma_names_are_lower, values_of};
use crate::text::same_text;
use hyper::header::{HeaderMap, HeaderValue};
use vstd::prelude::*;
use vstd::std_specs::convert::FromSpecImpl;
use vstd::utf8::encode_utf8;

verus! {

/// Number of features of a request.
pub const FEATURE_COUNT: usize = 3;

/// A fixed-length vector of numeric features for a single request.
///
/// It holds what can be told from a request before any work is done to serve it, so that the
/// features can decide whether to serve the request or to challenge it.
#[derive(Clone, Copy, Debug, PartialEq, Eq)]
pub struct RequestFeatures([i32; FEATURE_COUNT]);

impl View for RequestFeatures {
    type V = Seq<i32>;

    closed spec fn view(&self) -> Seq<i32> {
        self.0@
    }
}

/// HTTP methods as feature values.
///
/// They are in chronological order, and in alphabetical order among those of one age, so that a
/// larger number tends to be a rarer method. `GET`, the most common one, comes first.
#[derive(Clone, Copy, Debug, PartialEq, Eq, Structural)]
pub enum HttpVerb {
    Get,
    Head,
    Post,
    Connect,
    Delete,
    Options,
    Put,
    Trace,
    Patch,
    /// Any other method.
    Unknown,
}

/// The verb for the name of a method. Names are matched as they stand, in upper case.
pub open spec fn verb_of(method: Seq<char>) -> HttpVerb {
    if method == "CONNECT"@ {
        HttpVerb::Connect
    } else if method == "DELETE"@ {
        HttpVerb::Delete
    } else if method == "GET"@ {
        HttpVerb::Get
    } else if method == "HEAD"@ {
        HttpVerb::Head
    } else if method == "OPTIONS"@ {
        HttpVerb::Options
    } else if method == "PATCH"@ {
        HttpVerb::Patch
    } else if method == "POST"@ {
        HttpVerb::Post
    } else if method == "PUT"@ {
        HttpVerb::Put
    } else if method == "TRACE"@ {
        HttpVerb::Trace
    } else {
        HttpVerb::Unknown
    }
}

impl HttpVerb {
    /// The place of the verb in the order of the verbs, counted from zero.
    pub open spec fn rank(self) -> i32 {
        match self {
            HttpVerb::Get => 0,
            HttpVerb::Head => 1,
            HttpVerb::Post => 2,
            HttpVerb::Connect => 3,
            HttpVerb::Delete => 4,
            HttpVerb::Options => 5,
            HttpVerb::Put => 6,
            HttpVerb::Trace => 7,
            HttpVerb::Patch => 8,
            HttpVerb::Unknown => 9,
        }
    }

    /// The feature value of the verb.
    pub fn code(self) -> (r: i32)
        ensures
            r == self.rank(),
    {
        match self {
            HttpVerb::Get => 0,
            HttpVerb::Head => 1,
            HttpVerb::Post => 2,
            HttpVerb::Connect => 3,
            HttpVerb::Delete => 4,
            HttpVerb::Options => 5,
            HttpVerb::Put => 6,
            HttpVerb::Trace => 7,
            HttpVerb::Patch => 8,
            HttpVerb::Unknown => 9,
        }
    }
}

impl<'a> FromSpecImpl<&'a str> for HttpVerb {
    open spec fn obeys_from_spec() -> bool {
        true
    }

    open spec fn from_spec(method: &'a str) -> HttpVerb {
        verb_of(method@)
    }
}

impl<'a> From<&'a str> for HttpVerb {
    fn from(method: &'a str) -> (r: HttpVerb) {
        if same_text(method, "CONNECT") {
            HttpVerb::Connect
        } else if same_text(method, "DELETE") {
            HttpVerb::Delete
        } else if same_text(method, "GET") {
            HttpVerb::Get
        } else if same_text(method, "HEAD") {
            HttpVerb::Head
        } else if same_text(method, "OPTIONS") {
            HttpVerb::Options
        } else if same_text(method, "PATCH") {
            HttpVerb::Patch
        } else if same_text(method, "POST") {
            HttpVerb::Post
        } else if same_text(method, "PUT") {
            HttpVerb::Put
        } else if same_text(method, "TRACE") {
            HttpVerb::Trace
        } else {
            HttpVerb::Unknown
        }
    }
}

impl RequestFeatures {
    /// The features of a request with the given method, bytes of the user agent and bytes of the
    /// path.
    pub fn from_lengths(method: &str, user_agent_len: usize, path_len: usize) -> (r: Self)
        ensures
            r@ == seq![verb_of(method@).rank(), user_agent_len as i32, path_len as i32],
    {
        let verb = HttpVerb::from(method).code();
        let r = RequestFeatures([verb, user_agent_len as i32, path_len as i32]);
        assert(r@ =~= seq![verb_of(method@).rank(), user_agent_len as i32, path_len as i32]);
        r
    }

    /// The features of a request: its method, the bytes of its user agent, where it names one, and
    /// the bytes of its path.
    pub fn from_request(method: &str, headers: &HeaderMap<HeaderValue>, path: &str) -> (r: Self)
        ensures
            ({
                let agents = values_of(header_entries(*headers), "user-agent"@);
                let agent_len = if agents.len() > 0 {
                    agents[0].len()
                } else {
                    0
                };
                r@ == seq![
                    verb_of(method@).rank(),
                    agent_len as usize as i32,
                    encode_utf8(path@).len() as usize as i32,
                ]
            }),
    {
        proof {
            lemma_names_are_lower();
        }
        let user_agent_len = match header_value(headers, "user-agent") {
            Some(bytes) => bytes.len(),
            None => 0,
        };
        RequestFeatures::from_lengths(method, user_agent_len, path.len())
    }
}

impl Default for RequestFeatures {
    /// All features zero.
    fn default() -> (r: Self)
        ensures
            r@ == seq![0i32, 0i32, 0i32],
    {
        let r = RequestFeatures([0, 0, 0]);
        assert(r@ =~= seq![0i32, 0i32, 0i32]);
        r
    }
}

/// `GET` has the least feature value, and no two verbs share one.
pub proof fn law_verbs_are_ranked(a: HttpVerb, b: HttpVerb)
    ensures
        HttpVerb::Get.rank() == 0,
        0 <= a.rank() < 10,
        a.rank() == b.rank() ==> a == b,
        a.rank() <= HttpVerb::Unknown.rank(),
{
}

/// The features are those of the request: its verb, the bytes of its first user agent, whether that
/// is text or not, and the bytes of its path. The verbs are numbered by their age.
pub proof fn law_features_are_those_of_the_request(
    method: &str,
    headers: HeaderMap<HeaderValue>,
    path: &str,
    features: RequestFeatures,
    verb: HttpVerb,
    code: i32,
)
    requires
        call_ensures(RequestFeatures::from_request, (method, &headers, path), features),
        call_ensures(HttpVerb::code, (verb,), code),
        verb == verb_of(method@),
    ensures
        features@.len() == 3,
        features@[0] == code,
        ({
            let agents = values_of(header_entries(headers), "user-agent"@);
            features@[1] == if agents.len() > 0 {
                agents[0].len() as usize as i32
            } else {
                0
            }
        }),
        features@[2] == encode_utf8(path@).len() as usize as i32,
        method@ == "GET"@ <==> code == 0,
        method@ == "HEAD"@ <==> code == 1,
        method@ == "POST"@ <==> code == 2,
        method@ == "CONNECT"@ <==> code == 3,
        method@ == "DELETE"@ <==> code == 4,
        method@ == "OPTIONS"@ <==> code == 5,
        method@ == "PUT"@ <==> code == 6,
        method@ == "TRACE"@ <==> code == 7,
        method@ == "PATCH"@ <==> code == 8,
        0 <= code <= 9,
{
    reveal_strlit("GET");
    reveal_strlit("HEAD");
    reveal_strlit("POST");
    reveal_strlit("CONNECT");
    reveal_strlit("DELETE");
    reveal_strlit("OPTIONS");
    reveal_strlit("PUT");
    reveal_strlit("TRACE");
    reveal_strlit("PATCH");
    let m = method@;
    assert(m == "GET"@ ==> m[0] == 'G');
    assert(m == "HEAD"@ ==> m[0] == 'H');
    assert(m == "POST"@ ==> m[0] == 'P' && m[1] == 'O');
    assert(m == "CONNECT"@ ==> m[0] == 'C');
    assert(m == "DELETE"@ ==> m[0] == 'D');
    assert(m == "OPTIONS"@ ==> m[0] == 'O');
    assert(m == "PUT"@ ==> m[0] == 'P' && m[1] == 'U');
    assert(m == "TRACE"@ ==> m[0] == 'T');
    assert(m == "PATCH"@ ==> m[0] == 'P' && m[1] == 'A');
}

} // verus!
