//! The dialer's verified half: the registration request, how the tunnel
//! endpoint is derived from the server's answer, and the accounting that
//! bounds the number of concurrent tunnel workers.
//!
//! The dialing, copying and shutdown plumbing live outside; they consult
//! these decisions and report back plain values.

use vstd::prelude::*;
use vstd::string::*;
use crate::api::ProxyInfo;
use crate::text::find_char_from;

verus! {

/// The tunnel endpoint a client connects to, derived from the registration
/// response.
#[derive(Clone, Debug)]
pub struct TunnelServerInfo {
    pub host: String,
    pub port: u16,
    pub max_conn_count: u8,
    pub url: String,
}

/// What the dialer is asked to do: where to register, which subdomain to
/// claim, which local service to expose, and how many tunnels to keep.
pub struct ClientConfig {
    pub server: Option<String>,
    pub subdomain: Option<String>,
    pub local_host: Option<String>,
    pub local_port: u16,
    pub max_conn: u8,
    pub credential: Option<String>,
}

/// The URL of the registration request: `{server}/{subdomain}`, with
/// `?new` for a server-chosen subdomain, and the credential appended as a
/// query parameter when one is configured.
pub open spec fn spec_registration_uri(
    server: Option<Seq<char>>,
    subdomain: Option<Seq<char>>,
    credential: Option<Seq<char>>,
) -> Seq<char> {
    let base = (match server {
        Some(s) => s,
        None => "https://init.so"@,
    }) + "/"@ + (match subdomain {
        Some(s) => s,
        None => "?new"@,
    });
    match credential {
        Some(c) => base + "?credential="@ + c,
        None => base,
    }
}

/// Builds the registration request URL, as [`spec_registration_uri`]
/// describes.
pub fn build_registration_uri(
    server: &Option<String>,
    subdomain: &Option<String>,
    credential: &Option<String>,
) -> (r: String)
    ensures
        r@ == spec_registration_uri(server.deep_view(), subdomain.deep_view(), credential.deep_view()),
{
    let mut uri = match server {
        Some(s) => s.clone(),
        None => String::from_str("https://init.so"),
    };
    uri.append("/");
    match subdomain {
        Some(s) => uri.append(s.as_str()),
        None => uri.append("?new"),
    };
    match credential {
        Some(c) => {
            uri.append("?credential=");
            uri.append(c.as_str());
        },
        None => {},
    };
    uri
}

/// Where the first `//` of `h` starts, or `-1` if there is none.
pub open spec fn dslash_index(h: Seq<char>) -> int
    decreases h.len(),
{
    if h.len() < 2 {
        -1
    } else if h[0] == '/' && h[1] == '/' {
        0
    } else {
        let rest = dslash_index(h.skip(1));
        if rest == -1 {
            -1
        } else {
            1 + rest
        }
    }
}

/// `dslash_index` finds the first `//`, and `-1` means there is none.
pub proof fn lemma_dslash_index(h: Seq<char>)
    ensures
        ({
            let k = dslash_index(h);
            &&& -1 <= k
            &&& k >= 0 ==> k + 1 < h.len() && h[k] == '/' && h[k + 1] == '/' && (forall|j: int|
                0 <= j < k ==> !((#[trigger] h[j]) == '/' && h[j + 1] == '/'))
            &&& k == -1 ==> forall|j: int|
                0 <= j && j + 1 < h.len() ==> !((#[trigger] h[j]) == '/' && h[j + 1] == '/')
        }),
    decreases h.len(),
{
    if h.len() < 2 {
    } else if h[0] == '/' && h[1] == '/' {
    } else {
        lemma_dslash_index(h.skip(1));
        assert(forall|j: int| 0 <= j < h.skip(1).len() ==> (#[trigger] h.skip(1)[j]) == h[j + 1]);
        let k = dslash_index(h);
        let rest = dslash_index(h.skip(1));
        if rest >= 0 {
            assert(h.skip(1)[rest] == h[rest + 1]);
            assert(h.skip(1)[rest + 1] == h[rest + 2]);
            assert forall|j: int| 0 <= j < k implies !((#[trigger] h[j]) == '/' && h[j + 1]
                == '/') by {
                if j > 0 {
                    assert(h.skip(1)[j - 1] == h[j]);
                    assert(h.skip(1)[j] == h[j + 1]);
                    assert(!(h.skip(1)[j - 1] == '/' && h.skip(1)[j] == '/'));
                }
            }
        } else {
            assert forall|j: int| 0 <= j && j + 1 < h.len() implies !((#[trigger] h[j]) == '/'
                && h[j + 1] == '/') by {
                if j > 0 {
                    assert(0 <= j - 1 && (j - 1) + 1 < h.skip(1).len());
                    assert(h.skip(1)[j - 1] == h[j]);
                    assert(h.skip(1)[j] == h[j + 1]);
                    assert(!(h.skip(1)[j - 1] == '/' && h.skip(1)[j - 1 + 1] == '/'));
                }
            }
        }
    }
}

/// Where the first `:` of `s` sits, or `s.len()` if there is none.
pub open spec fn colon_end(s: Seq<char>) -> int {
    match s.index_of_first(':') {
        Some(i) => i,
        None => s.len() as int,
    }
}

/// The tunnel host hidden in a registration response's `url`: the part
/// after the scheme's `//`, cut before any `:port`, with the leading
/// subdomain label dropped so that the registered apex remains.
pub open spec fn spec_tunnel_host(url: Seq<char>) -> Seq<char>
    recommends
        dslash_index(url) >= 0,
{
    let rest = url.skip(dslash_index(url) + 2);
    let host_full = rest.take(colon_end(rest));
    match host_full.index_of_first('.') {
        Some(i) => host_full.skip(i + 1),
        None => host_full,
    }
}

/// Finds the first `//` of `url`.
fn find_dslash(url: &str) -> (r: usize)
    requires
        dslash_index(url@) >= 0,
    ensures
        r as int == dslash_index(url@),
        r + 1 < url@.len(),
{
    proof {
        lemma_dslash_index(url@);
    }
    let n = url.unicode_len();
    let mut i: usize = 0;
    loop
        invariant
            n == url@.len(),
            dslash_index(url@) >= 0,
            i <= dslash_index(url@),
            dslash_index(url@) + 1 < url@.len(),
        decreases dslash_index(url@) - i,
    {
        if url.get_char(i) == '/' && url.get_char(i + 1) == '/' {
            proof {
                lemma_dslash_index(url@);
                if i < dslash_index(url@) {
                    assert(!(url@[i as int] == '/' && url@[i as int + 1] == '/'));
                    assert(false);
                }
            }
            return i;
        }
        proof {
            lemma_dslash_index(url@);
            if i == dslash_index(url@) {
                assert(false);
            }
        }
        i = i + 1;
    }
}

/// Derives the tunnel host from a registration response's `url`, as
/// [`spec_tunnel_host`] describes. The URL must carry a scheme's `//`.
pub fn derive_tunnel_host(url: &str) -> (r: String)
    requires
        dslash_index(url@) >= 0,
    ensures
        r@ == spec_tunnel_host(url@),
{
    let d = find_dslash(url);
    let len = url.unicode_len();
    let rest = url.substring_char(d + 2, len);
    let colon = find_char_from(rest, ':', 0);
    proof {
        assert(rest@.subrange(0, rest@.len() as int) =~= rest@);
    }
    let host_full = rest.substring_char(0, colon);
    let host_len = host_full.unicode_len();
    let dot = find_char_from(host_full, '.', 0);
    proof {
        assert(host_full@.subrange(0, host_full@.len() as int) =~= host_full@);
        assert(rest@.take(colon_end(rest@)) =~= host_full@);
    }
    if dot < host_len {
        let base = host_full.substring_char(dot + 1, host_len);
        base.to_owned()
    } else {
        proof {
            assert(host_full@.skip(0) =~= host_full@);
        }
        host_full.to_owned()
    }
}

/// Bundles the registration response into the tunnel endpoint the dialer
/// connects to: the derived host, the advertised ingress port and socket
/// allowance, and the public URL itself.
pub fn tunnel_server_info(resp: &ProxyInfo) -> (r: TunnelServerInfo)
    requires
        dslash_index(resp.url@) >= 0,
    ensures
        r.host@ == spec_tunnel_host(resp.url@),
        r.port == resp.port,
        r.max_conn_count == resp.max_conn_count,
        r.url@ == resp.url@,
{
    TunnelServerInfo {
        host: derive_tunnel_host(resp.url.as_str()),
        port: resp.port,
        max_conn_count: resp.max_conn_count,
        url: resp.url.clone(),
    }
}

/// The number of tunnel sockets the dialer maintains: the smaller of the
/// server's allowance and the configured maximum.
pub fn effective_conn_count(server_max: u8, client_max: u8) -> (r: u8)
    ensures
        r == if server_max <= client_max {
            server_max
        } else {
            client_max
        },
        r <= server_max,
        r <= client_max,
{
    if server_max <= client_max {
        server_max
    } else {
        client_max
    }
}

/// The dialer supervisor's accounting: how many workers run and how many
/// may. It mirrors the counting semaphore the supervisor holds: a worker is
/// spawned only under a granted permit, and the permit is released when the
/// worker exits.
pub struct DialerState {
    pub active: u8,
    pub limit: u8,
}

impl DialerState {
    /// Never more running workers than permits.
    pub open spec fn wf(&self) -> bool {
        self.active <= self.limit
    }

    /// A fresh supervisor for a server that allows `server_max` sockets and
    /// a configuration that asks for at most `client_max`.
    pub fn new(server_max: u8, client_max: u8) -> (d: DialerState)
        ensures
            d.wf(),
            d.active == 0,
            d.limit == if server_max <= client_max {
                server_max
            } else {
                client_max
            },
    {
        DialerState { active: 0, limit: effective_conn_count(server_max, client_max) }
    }

    /// Asks for a permit to spawn one more worker; granted exactly when the
    /// bound leaves room.
    pub fn try_spawn(&mut self) -> (granted: bool)
        requires
            old(self).wf(),
        ensures
            final(self).wf(),
            final(self).limit == old(self).limit,
            granted == (old(self).active < old(self).limit),
            granted ==> final(self).active == old(self).active + 1,
            !granted ==> final(self).active == old(self).active,
    {
        if self.active < self.limit {
            self.active = self.active + 1;
            true
        } else {
            false
        }
    }

    /// Releases one worker's permit when it exits.
    pub fn worker_finished(&mut self)
        requires
            old(self).wf(),
            old(self).active > 0,
        ensures
            final(self).wf(),
            final(self).limit == old(self).limit,
            final(self).active == old(self).active - 1,
    {
        self.active = self.active - 1;
    }
}

/// Law: the dialer maintains at most `min(server_max, client_max)`
/// concurrent workers at any instant — whenever its accounting is well
/// formed and its permit count was sized by those two bounds.
pub proof fn lemma_dialer_bound(d: &DialerState, server_max: u8, client_max: u8)
    requires
        d.wf(),
        d.limit == if server_max <= client_max {
            server_max
        } else {
            client_max
        },
    ensures
        d.active <= server_max,
        d.active <= client_max,
{
}

} // verus!
