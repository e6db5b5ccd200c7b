//! Error kinds of the server's request paths and their mapping to HTTP
//! status codes.

use vstd::prelude::*;

verus! {

/// Everything that can go wrong while resolving or serving one request.
#[derive(Clone, Copy, Debug, PartialEq, Eq, Structural)]
pub enum ServerError {
    /// The public request carried no `Host` header.
    NoHostHeader,
    /// No tenant is registered for the requested subdomain.
    ProxyNotReady,
    /// The tenant's pool held no live socket.
    EmptyConnection,
    /// An upgrade was attempted but the request carried no upgrade extension.
    NoUpgradeExtension,
    /// A `101` response carried no `Upgrade` header.
    NoUpgradeHeader,
    /// The `Host` header held no usable subdomain label.
    InvalidHostName,
    /// The credential-store configuration is incomplete.
    InvalidConfig,
}

impl ServerError {
    /// The HTTP status under which this error surfaces to the public client.
    pub open spec fn spec_http_status(self) -> u16 {
        match self {
            ServerError::NoHostHeader => 400,
            ServerError::InvalidHostName => 400,
            ServerError::ProxyNotReady => 502,
            ServerError::EmptyConnection => 502,
            ServerError::NoUpgradeExtension => 502,
            ServerError::NoUpgradeHeader => 502,
            ServerError::InvalidConfig => 500,
        }
    }

    /// Maps the error to the HTTP status code it surfaces as: the two
    /// malformed-request kinds give 400, a missing tenant or socket and a
    /// malformed upgrade give 502, a broken configuration gives 500.
    pub fn http_status(&self) -> (s: u16)
        ensures
            s == self.spec_http_status(),
    {
        match self {
            ServerError::NoHostHeader => 400,
            ServerError::InvalidHostName => 400,
            ServerError::ProxyNotReady => 502,
            ServerError::EmptyConnection => 502,
            ServerError::NoUpgradeExtension => 502,
            ServerError::NoUpgradeHeader => 502,
            ServerError::InvalidConfig => 500,
        }
    }

    /// The human-readable description of this error.
    pub open spec fn spec_message(self) -> Seq<char> {
        match self {
            ServerError::NoHostHeader => "Must contain host header"@,
            ServerError::ProxyNotReady => "Proxy connection is not setup"@,
            ServerError::EmptyConnection => "Client connection is empty"@,
            ServerError::NoUpgradeExtension => "Must contain an upgrade extension"@,
            ServerError::NoUpgradeHeader => "Must contain host header"@,
            ServerError::InvalidHostName => "Host name is invalid"@,
            ServerError::InvalidConfig => "Server config is not valid"@,
        }
    }

    /// Returns the error's description, for response bodies and logs.
    pub fn message(&self) -> (m: String)
        ensures
            m@ == self.spec_message(),
    {
        match self {
            ServerError::NoHostHeader => String::from_str("Must contain host header"),
            ServerError::ProxyNotReady => String::from_str("Proxy connection is not setup"),
            ServerError::EmptyConnection => String::from_str("Client connection is empty"),
            ServerError::NoUpgradeExtension => String::from_str(
                "Must contain an upgrade extension",
            ),
            ServerError::NoUpgradeHeader => String::from_str("Must contain host header"),
            ServerError::InvalidHostName => String::from_str("Host name is invalid"),
            ServerError::InvalidConfig => String::from_str("Server config is not valid"),
        }
    }
}

} // verus!
