//! Server configuration values.
//!
//! The values themselves come from the process environment at startup;
//! this type only carries them, and renders the listen address.

use vstd::prelude::*;

use crate::codec::dec_rep;
use crate::codec::u128_to_string;

verus! {

use vstd::string::StringExecFns;

/// The server's configuration.
#[derive(Debug, Clone)]
pub struct Config {
    pub host: String,
    pub port: u16,
    pub database_url: String,
    pub redis_url: String,
    pub idp_domain: String,
    pub log_level: String,
}

impl Config {
    /// The listen address: the host and the decimal port joined by ':'.
    pub fn addr(&self) -> (r: String)
        ensures
            r@ == self.host@ + seq![':'] + dec_rep(self.port as nat),
    {
        let mut out: String = self.host.clone();
        out.append(":");
        out.append(u128_to_string(self.port as u128).as_str());
        proof {
            reveal_strlit(":");
            assert(out@ =~= self.host@ + seq![':'] + dec_rep(self.port as nat));
        }
        out
    }
}

} // verus!
