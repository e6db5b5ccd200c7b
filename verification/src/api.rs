//! The registration endpoint's decisions: subdomain validation, the auth
//! gate, and the response that advertises a fresh tenant.
//!
//! The HTTP layer hands in the path segment, the query's credential and the
//! server's settings, and carries out the returned step: answer with a
//! rejection, ask the credential store, or allocate a tenant and answer with
//! the proxy info.

use vstd::prelude::*;
use vstd::string::*;

verus! {

/// A lowercase letter or digit: the characters a label may start and end
/// with.
pub open spec fn is_label_char(c: char) -> bool {
    ||| ('a' as u32) <= (c as u32) <= ('z' as u32)
    ||| ('0' as u32) <= (c as u32) <= ('9' as u32)
}

/// A character allowed anywhere inside a label.
pub open spec fn is_label_or_hyphen(c: char) -> bool {
    is_label_char(c) || c == '-'
}

/// A valid subdomain: one to 63 characters, lowercase letters, digits and
/// hyphens only, neither starting nor ending with a hyphen — the language of
/// `^[a-z0-9](?:[a-z0-9-]{0,61}[a-z0-9])?$`. Uppercase is refused because
/// browsers lowercase host names.
pub open spec fn is_valid_subdomain(s: Seq<char>) -> bool {
    &&& 1 <= s.len() <= 63
    &&& is_label_char(s[0])
    &&& is_label_char(s[s.len() - 1])
    &&& forall|i: int| 0 <= i < s.len() ==> is_label_or_hyphen(#[trigger] s[i])
}

/// Whether `c` is a lowercase letter or digit.
fn label_char(c: char) -> (r: bool)
    ensures
        r == is_label_char(c),
{
    let u = c as u32;
    (97 <= u && u <= 122) || (48 <= u && u <= 57)
}

/// Decides whether `endpoint` is a valid subdomain (see
/// [`is_valid_subdomain`]).
pub fn validate_endpoint(endpoint: &str) -> (r: bool)
    ensures
        r == is_valid_subdomain(endpoint@),
{
    let len = endpoint.unicode_len();
    if len == 0 || len > 63 {
        return false;
    }
    if !label_char(endpoint.get_char(0)) {
        return false;
    }
    if !label_char(endpoint.get_char(len - 1)) {
        return false;
    }
    let mut i: usize = 0;
    while i < len
        invariant
            len == endpoint@.len(),
            1 <= len <= 63,
            i <= len,
            is_label_char(endpoint@[0]),
            is_label_char(endpoint@[len - 1]),
            forall|j: int| 0 <= j < i ==> is_label_or_hyphen(#[trigger] endpoint@[j]),
        decreases len - i,
    {
        let c = endpoint.get_char(i);
        if !label_char(c) && c != '-' {
            return false;
        }
        i = i + 1;
    }
    true
}

/// A plain HTTP answer: a status code and a text body.
pub struct HttpReply {
    pub status: u16,
    pub body: String,
}

/// What the registration endpoint should do next with a request.
pub enum RegistrationStep {
    /// Answer with this reply and stop.
    Reject(HttpReply),
    /// Ask the credential store whether this credential may claim the
    /// subdomain, then continue with [`auth_step`].
    CheckAuth(String),
    /// Allocate the tenant and answer with [`registration_success`].
    Allocate,
}

/// Screens a registration request before any tenant is touched.
///
/// Law: a subdomain is accepted — the step is `Allocate` or `CheckAuth`,
/// never `Reject` — only if it matches the subdomain grammar.
pub fn registration_screen(endpoint: &str, require_auth: bool, credential: &Option<String>) -> (r:
    RegistrationStep)
    ensures
        r is Allocate || r is CheckAuth ==> is_valid_subdomain(endpoint@),
        !is_valid_subdomain(endpoint@) ==> (r matches RegistrationStep::Reject(rep) && rep.status
            == 400 && rep.body@
            == "Request subdomain is invalid, only chars in lowercase and numbers are allowed"@),
        is_valid_subdomain(endpoint@) && require_auth ==> match credential {
            None => (r matches RegistrationStep::Reject(rep) && rep.status == 400 && rep.body@
                == "Request Error: credential param is empty."@),
            Some(c) => (r matches RegistrationStep::CheckAuth(cc) && cc@ == c@),
        },
        is_valid_subdomain(endpoint@) && !require_auth ==> r is Allocate,
{
    if !validate_endpoint(endpoint) {
        return RegistrationStep::Reject(
            HttpReply {
                status: 400,
                body: String::from_str(
                    "Request subdomain is invalid, only chars in lowercase and numbers are allowed",
                ),
            },
        );
    }
    if require_auth {
        match credential {
            None => RegistrationStep::Reject(
                HttpReply {
                    status: 400,
                    body: String::from_str("Request Error: credential param is empty."),
                },
            ),
            Some(c) => RegistrationStep::CheckAuth(c.clone()),
        }
    } else {
        RegistrationStep::Allocate
    }
}

/// What the credential store answered: the credential is valid, it is not,
/// or the store itself failed with this description.
pub enum AuthOutcome {
    Valid,
    Invalid,
    Error(String),
}

/// Turns the credential store's answer into the endpoint's next step: a
/// valid credential allocates, an invalid one is rejected with 400, a store
/// failure is answered with 500.
pub fn auth_step(outcome: AuthOutcome) -> (r: RegistrationStep)
    ensures
        outcome is Valid ==> r is Allocate,
        outcome is Invalid ==> (r matches RegistrationStep::Reject(rep) && rep.status == 400
            && rep.body@ == "Error: credential is not valid."@),
        outcome matches AuthOutcome::Error(m) ==> (r matches RegistrationStep::Reject(rep)
            && rep.status == 500 && rep.body@ == "Server Error: "@ + m@),
{
    match outcome {
        AuthOutcome::Valid => RegistrationStep::Allocate,
        AuthOutcome::Invalid => RegistrationStep::Reject(
            HttpReply { status: 400, body: String::from_str("Error: credential is not valid.") },
        ),
        AuthOutcome::Error(m) => RegistrationStep::Reject(
            HttpReply { status: 500, body: String::from_str("Server Error: ").concat(m.as_str()) },
        ),
    }
}

/// The scheme the server advertises, chosen by its `secure` flag.
pub open spec fn spec_scheme(secure: bool) -> Seq<char> {
    if secure {
        "https://"@
    } else {
        "http://"@
    }
}

/// The origin advertised for a registered subdomain:
/// `{scheme}{subdomain}.{domain}`.
pub open spec fn spec_registration_url(secure: bool, sub: Seq<char>, domain: Seq<char>) -> Seq<
    char,
> {
    spec_scheme(secure) + sub + "."@ + domain
}

/// The registration response: the claimed subdomain, the tenant's ingress
/// port, the socket allowance, and the advertised public origin.
pub struct ProxyInfo {
    pub id: String,
    pub port: u16,
    pub max_conn_count: u8,
    pub url: String,
}

/// Builds the success response for a tenant that was allocated under
/// `endpoint` and listens on `port`.
pub fn registration_success(
    endpoint: &str,
    port: u16,
    max_conn_count: u8,
    secure: bool,
    domain: &str,
) -> (r: ProxyInfo)
    ensures
        r.id@ == endpoint@,
        r.port == port,
        r.max_conn_count == max_conn_count,
        r.url@ == spec_registration_url(secure, endpoint@, domain@),
{
    let mut url = if secure {
        String::from_str("https://")
    } else {
        String::from_str("http://")
    };
    url.append(endpoint);
    url.append(".");
    url.append(domain);
    ProxyInfo { id: endpoint.to_owned(), port, max_conn_count, url }
}

/// Law: the advertised origin ends with the configured domain and, right
/// after its scheme, begins with the subdomain followed by a dot.
pub proof fn lemma_registration_url_shape(secure: bool, sub: Seq<char>, domain: Seq<char>)
    ensures
        ({
            let url = spec_registration_url(secure, sub, domain);
            let scheme = spec_scheme(secure);
            &&& url.len() == scheme.len() + sub.len() + 1 + domain.len()
            &&& url.subrange(url.len() - domain.len(), url.len() as int) == domain
            &&& url.skip(scheme.len() as int).take(sub.len() as int + 1) == sub + "."@
        }),
{
    reveal_strlit(".");
    let url = spec_registration_url(secure, sub, domain);
    let scheme = spec_scheme(secure);
    assert(url.subrange(url.len() - domain.len(), url.len() as int) =~= domain);
    assert(url.skip(scheme.len() as int).take(sub.len() as int + 1) =~= sub + "."@);
}

/// The health snapshot served by the status endpoint. The field spelling
/// `tunels` is part of the wire format.
pub struct ApiStatus {
    pub tunnels_count: u16,
    pub tunels: String,
}

/// The (stubbed) health snapshot: no tunnel count is tracked yet.
pub fn api_status_info() -> (r: ApiStatus)
    ensures
        r.tunnels_count == 0,
        r.tunels@ == "kaichao"@,
{
    ApiStatus { tunnels_count: 0, tunels: String::from_str("kaichao") }
}

/// The query parameters of a registration request.
pub struct AuthInfo {
    pub credential: Option<String>,
}

/// Where the first `c` of `s` sits, or `s.len()` if there is none.
pub open spec fn char_index(s: Seq<char>, c: char) -> int
    decreases s.len(),
{
    if s.len() <= 0 {
        0
    } else if s[0] == c {
        0
    } else {
        1 + char_index(s.skip(1), c)
    }
}

/// `char_index` finds the first occurrence, and `s.len()` means there is
/// none.
pub proof fn lemma_char_index(s: Seq<char>, c: char)
    ensures
        0 <= char_index(s, c) <= s.len(),
        char_index(s, c) < s.len() ==> s[char_index(s, c)] == c,
        forall|j: int| 0 <= j < char_index(s, c) ==> s[j] != c,
    decreases s.len(),
{
    if s.len() > 0 && s[0] != c {
        lemma_char_index(s.skip(1), c);
        assert(forall|j: int| 0 <= j < s.skip(1).len() ==> (#[trigger] s.skip(1)[j]) == s[j + 1]);
        assert forall|j: int| 0 <= j < char_index(s, c) implies s[j] != c by {
            if j > 0 {
                assert(s.skip(1)[j - 1] == s[j]);
            }
        }
    }
}

/// The value of the query's `credential` parameter: among the
/// `&`-separated segments, the remainder of the first one that begins with
/// `credential=`.
pub open spec fn spec_credential_param(q: Seq<char>) -> Option<Seq<char>>
    decreases q.len(),
    via spec_credential_param_decreases
{
    let e = char_index(q, '&');
    let seg = q.take(e);
    if "credential="@.is_prefix_of(seg) {
        Some(seg.skip("credential="@.len() as int))
    } else if e >= q.len() {
        None
    } else {
        spec_credential_param(q.skip(e + 1))
    }
}

#[via_fn]
proof fn spec_credential_param_decreases(q: Seq<char>) {
    lemma_char_index(q, '&');
}

/// Reads the `credential` parameter out of a request's query string, as
/// [`spec_credential_param`] describes; no query at all carries none.
pub fn credential_from_query(query: &Option<String>) -> (r: Option<String>)
    ensures
        match query {
            None => r is None,
            Some(q) => match r {
                Some(c) => spec_credential_param(q@) == Some(c@),
                None => spec_credential_param(q@) is None,
            },
        },
{
    let q = match query {
        None => {
            return None;
        },
        Some(q) => q.as_str(),
    };
    let len = q.unicode_len();
    let mut start: usize = 0;
    proof {
        assert(q@.skip(0) =~= q@);
    }
    loop
        invariant
            query matches Some(qq) && qq@ == q@,
            len == q@.len(),
            start <= len,
            spec_credential_param(q@.skip(start as int)) == spec_credential_param(q@),
        decreases len - start,
    {
        let e = crate::text::find_char_from(q, '&', start);
        let seg = q.substring_char(start, e);
        proof {
            let tail = q@.skip(start as int);
            lemma_char_index(tail, '&');
            let ci = char_index(tail, '&');
            assert(forall|j: int| 0 <= j < tail.len() ==> (#[trigger] tail[j]) == q@[start + j]);
            if ci < tail.len() {
                assert(q@[start + ci] == '&');
                if ci < e - start {
                    assert(false);
                }
                if ci > e - start {
                    assert(tail[e - start as int] == '&');
                    assert(false);
                }
            } else {
                if e < len {
                    assert(tail[e - start as int] == '&');
                    assert(false);
                }
            }
            assert(ci == e - start);
            assert(tail.take(ci) =~= seg@);
        }
        if crate::text::str_starts_with(seg, "credential=") {
            proof {
                reveal_strlit("credential=");
            }
            let value = seg.substring_char(11, seg.unicode_len());
            proof {
                assert(q@.skip(start as int).take(e - start as int).skip(11) =~= value@);
            }
            return Some(value.to_owned());
        }
        if e == len {
            proof {
                let tail = q@.skip(start as int);
                assert(char_index(tail, '&') >= tail.len());
            }
            return None;
        }
        proof {
            let tail = q@.skip(start as int);
            assert(tail.skip(e - start as int + 1) =~= q@.skip(e as int + 1));
        }
        start = e + 1;
    }
}

} // verus!
