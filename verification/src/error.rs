//! The failures of the routing layer.

use vstd::prelude::*;
use vstd::string::*;

verus! {

/// What can go wrong: at startup, a configuration that cannot be served;
/// per request, a path that no service claims.
#[derive(Debug)]
pub enum ProxyError {
    /// The configuration is unusable; the payload says why.
    ConfigError(String),
    /// No service prefix matches the request path held in the payload.
    RouteNotFound(String),
}

/// The text that introduces a configuration failure.
pub open spec fn config_error_label() -> Seq<char> {
    seq!['C', 'o', 'n', 'f', 'i', 'g', ' ', 'e', 'r', 'r', 'o', 'r', ':', ' ']
}

/// The text that introduces a routing failure.
pub open spec fn route_not_found_label() -> Seq<char> {
    seq!['R', 'o', 'u', 't', 'e', ' ', 'n', 'o', 't', ' ', 'f', 'o', 'u', 'n', 'd', ':', ' ']
}

impl ProxyError {
    /// The rendering of the error for a reader.
    pub open spec fn message_spec(&self) -> Seq<char> {
        match self {
            ProxyError::ConfigError(msg) => config_error_label() + msg@,
            ProxyError::RouteNotFound(path) => route_not_found_label() + path@,
        }
    }

    /// Renders the error: a label for the variant, then the payload.
    pub fn message(&self) -> (r: String)
        ensures
            r@ == self.message_spec(),
    {
        match self {
            ProxyError::ConfigError(msg) => {
                proof {
                    reveal_strlit("Config error: ");
                    assert("Config error: "@ =~= config_error_label());
                }
                String::from_str("Config error: ").concat(msg.as_str())
            },
            ProxyError::RouteNotFound(path) => {
                proof {
                    reveal_strlit("Route not found: ");
                    assert("Route not found: "@ =~= route_not_found_label());
                }
                String::from_str("Route not found: ").concat(path.as_str())
            },
        }
    }
}

} // verus!
