//! Configuration errors.

use vstd::prelude::*;

verus! {

/// An error raised while the node's configuration is being established.
pub enum ConfigError {
    /// An upstream RPC failed while the configuration was probed; the
    /// rendered message of that failure is carried along.
    RpcError(String),
    /// The node is still syncing and cannot serve yet.
    Syncing,
}

impl ConfigError {
    /// A human-readable description of the error.
    pub fn message<'a>(&'a self) -> (r: &'a str)
        ensures
            self matches ConfigError::RpcError(m) ==> r@ == m@,
            self is Syncing ==> r@ == "Node is syncing!"@,
    {
        match self {
            ConfigError::RpcError(m) => m.as_str(),
            ConfigError::Syncing => "Node is syncing!",
        }
    }
}

} // verus!
