//! The proxy handler's decisions: resolving the tenant's subdomain from the
//! `Host` header and deciding what to do with an upgrade handshake.
//!
//! The HTTP layer hands in the header values and the response status; it
//! carries out the returned decision — forward the response verbatim, or
//! splice the two upgraded connections into a raw byte pipe.

use vstd::prelude::*;
use vstd::string::*;
use crate::error::ServerError;
use crate::text::{find_char_from, str_eq, str_starts_with};

verus! {

/// Whether `h` begins with one of the scheme prefixes the proxy strips.
pub open spec fn has_scheme_prefix(h: Seq<char>) -> bool {
    ||| "https://"@.is_prefix_of(h)
    ||| "http://"@.is_prefix_of(h)
    ||| "wss://"@.is_prefix_of(h)
    ||| "ws://"@.is_prefix_of(h)
}

/// `h` with one leading `http(s)://` or `ws(s)://` stripped, if present.
pub open spec fn strip_scheme(h: Seq<char>) -> Seq<char> {
    if "https://"@.is_prefix_of(h) {
        h.skip("https://"@.len() as int)
    } else if "http://"@.is_prefix_of(h) {
        h.skip("http://"@.len() as int)
    } else if "wss://"@.is_prefix_of(h) {
        h.skip("wss://"@.len() as int)
    } else if "ws://"@.is_prefix_of(h) {
        h.skip("ws://"@.len() as int)
    } else {
        h
    }
}

/// Where the first `.` of `s` sits, or `s.len()` if there is none.
pub open spec fn label_end(s: Seq<char>) -> int {
    match s.index_of_first('.') {
        Some(i) => i,
        None => s.len() as int,
    }
}

/// The characters of `s` before its first `.`.
pub open spec fn first_label(s: Seq<char>) -> Seq<char> {
    s.take(label_end(s))
}

/// The subdomain a hostname resolves to: strip one scheme prefix, then take
/// the label before the first dot; an empty label is no usable subdomain.
pub open spec fn spec_extract(h: Seq<char>) -> Result<Seq<char>, ServerError> {
    let label = first_label(strip_scheme(h));
    if label.len() == 0 {
        Err(ServerError::InvalidHostName)
    } else {
        Ok(label)
    }
}

/// `hostname` with a leading scheme prefix removed, if it carries one.
fn strip_scheme_exec(hostname: &str) -> (r: &str)
    ensures
        r@ == strip_scheme(hostname@),
{
    let len = hostname.unicode_len();
    if str_starts_with(hostname, "https://") {
        proof {
            reveal_strlit("https://");
        }
        hostname.substring_char(8, len)
    } else if str_starts_with(hostname, "http://") {
        proof {
            reveal_strlit("http://");
        }
        hostname.substring_char(7, len)
    } else if str_starts_with(hostname, "wss://") {
        proof {
            reveal_strlit("wss://");
        }
        hostname.substring_char(6, len)
    } else if str_starts_with(hostname, "ws://") {
        proof {
            reveal_strlit("ws://");
        }
        hostname.substring_char(5, len)
    } else {
        hostname
    }
}

/// Extracts the subdomain from a `Host` header value, as [`spec_extract`]
/// describes. A port suffix is tolerated: the first dot cuts before it.
pub fn extract(hostname: &str) -> (r: Result<String, ServerError>)
    ensures
        match r {
            Ok(s) => spec_extract(hostname@) == Ok::<Seq<char>, ServerError>(s@),
            Err(e) => spec_extract(hostname@) == Err::<Seq<char>, ServerError>(e),
        },
{
    let stripped = strip_scheme_exec(hostname);
    let end = find_char_from(stripped, '.', 0);
    proof {
        let tail = stripped@.subrange(0, stripped@.len() as int);
        assert(tail =~= stripped@);
        if end < stripped@.len() {
            assert(label_end(stripped@) == end as int);
        } else {
            assert(label_end(stripped@) == stripped@.len() as int);
        }
        assert(first_label(stripped@) =~= stripped@.take(end as int));
    }
    if end == 0 {
        return Err(ServerError::InvalidHostName);
    }
    let label = stripped.substring_char(0, end);
    Ok(label.to_owned())
}

/// Law: extraction is insensitive to the scheme — for a host that does not
/// itself begin with a scheme prefix, `http://`, `https://`, `ws://`,
/// `wss://` and the bare host all resolve to the host's first dot-separated
/// label.
pub proof fn lemma_extract_scheme_insensitive(host: Seq<char>)
    requires
        !has_scheme_prefix(host),
    ensures
        spec_extract("http://"@ + host) == spec_extract(host),
        spec_extract("https://"@ + host) == spec_extract(host),
        spec_extract("ws://"@ + host) == spec_extract(host),
        spec_extract("wss://"@ + host) == spec_extract(host),
        first_label(host).len() > 0 ==> spec_extract(host) == Ok::<Seq<char>, ServerError>(
            first_label(host),
        ),
{
    reveal_strlit("http://");
    reveal_strlit("https://");
    reveal_strlit("ws://");
    reveal_strlit("wss://");
    lemma_prefixed_strip("http://"@, host);
    lemma_prefixed_strip("https://"@, host);
    lemma_prefixed_strip("ws://"@, host);
    lemma_prefixed_strip("wss://"@, host);
}

/// Helper: prepending one of the four scheme prefixes to a host that has
/// none strips back to the host itself.
proof fn lemma_prefixed_strip(scheme: Seq<char>, host: Seq<char>)
    requires
        !has_scheme_prefix(host),
        scheme == "http://"@ || scheme == "https://"@ || scheme == "ws://"@ || scheme
            == "wss://"@,
    ensures
        strip_scheme(scheme + host) == host,
        strip_scheme(host) == host,
{
    reveal_strlit("http://");
    reveal_strlit("https://");
    reveal_strlit("ws://");
    reveal_strlit("wss://");
    let h = scheme + host;
    assert(scheme.is_prefix_of(h)) by {
        assert(h.subrange(0, scheme.len() as int) =~= scheme);
    }
    if scheme == "http://"@ {
        assert(!"https://"@.is_prefix_of(h)) by {
            if "https://"@.is_prefix_of(h) {
                assert(h.subrange(0, 8)[4] == h[4]);
                assert(h[4] == scheme[4]);
            }
        }
        assert(h.skip(7) =~= host);
    } else if scheme == "https://"@ {
        assert(h.skip(8) =~= host);
    } else if scheme == "ws://"@ {
        assert(!"https://"@.is_prefix_of(h)) by {
            if "https://"@.is_prefix_of(h) {
                assert(h.subrange(0, 8)[0] == h[0]);
            }
        }
        assert(!"http://"@.is_prefix_of(h)) by {
            if "http://"@.is_prefix_of(h) {
                assert(h.subrange(0, 7)[0] == h[0]);
            }
        }
        assert(!"wss://"@.is_prefix_of(h)) by {
            if "wss://"@.is_prefix_of(h) {
                assert(h.subrange(0, 6)[2] == h[2]);
            }
        }
        assert(h.skip(5) =~= host);
    } else {
        assert(!"https://"@.is_prefix_of(h)) by {
            if "https://"@.is_prefix_of(h) {
                assert(h.subrange(0, 8)[0] == h[0]);
            }
        }
        assert(!"http://"@.is_prefix_of(h)) by {
            if "http://"@.is_prefix_of(h) {
                assert(h.subrange(0, 7)[0] == h[0]);
            }
        }
        assert(h.skip(6) =~= host);
    }
}

/// Resolves the optional `Host` header to a subdomain: a missing header is
/// `NoHostHeader`, otherwise the header value is extracted as
/// [`spec_extract`] describes.
pub fn resolve_endpoint(host: &Option<String>) -> (r: Result<String, ServerError>)
    ensures
        match host {
            None => (r matches Err(e) && e == ServerError::NoHostHeader),
            Some(h) => match r {
                Ok(s) => spec_extract(h@) == Ok::<Seq<char>, ServerError>(s@),
                Err(e) => spec_extract(h@) == Err::<Seq<char>, ServerError>(e),
            },
        },
{
    match host {
        None => Err(ServerError::NoHostHeader),
        Some(h) => extract(h.as_str()),
    }
}

/// What to do once the tunnelled response to an upgrade request came back.
#[derive(Clone, Copy, Debug, PartialEq, Eq, Structural)]
pub enum UpgradeAction {
    /// Await both upgrades and splice them into a raw byte pipe.
    Splice,
    /// Forward the response as it is; no pipe.
    Verbatim,
}

/// Decides the upgrade handshake's outcome for a request that asked for
/// `request_upgrade`: only a `101 Switching Protocols` response whose own
/// `Upgrade` header names the same protocol is spliced; a `101` without an
/// `Upgrade` header is an error; anything else is forwarded verbatim.
pub fn plan_upgrade(status: u16, request_upgrade: &str, response_upgrade: &Option<String>) -> (r:
    Result<UpgradeAction, ServerError>)
    ensures
        status != 101 ==> r == Ok::<UpgradeAction, ServerError>(UpgradeAction::Verbatim),
        status == 101 ==> match response_upgrade {
            None => r == Err::<UpgradeAction, ServerError>(ServerError::NoUpgradeHeader),
            Some(u) => r == Ok::<UpgradeAction, ServerError>(
                if u@ == request_upgrade@ {
                    UpgradeAction::Splice
                } else {
                    UpgradeAction::Verbatim
                },
            ),
        },
{
    if status != 101 {
        return Ok(UpgradeAction::Verbatim);
    }
    match response_upgrade {
        None => Err(ServerError::NoUpgradeHeader),
        Some(u) => {
            if str_eq(u.as_str(), request_upgrade) {
                Ok(UpgradeAction::Splice)
            } else {
                Ok(UpgradeAction::Verbatim)
            }
        },
    }
}

} // verus!
