//! The client's configuration.

use vstd::prelude::*;
use vstd::string::StringExecFns;

verus! {

/// The client's configuration.
#[derive(Clone)]
pub struct Config {
    /// The key that authorizes access to the service.
    pub api_key: String,
    /// The address under which the service is reached.
    pub endpoint: String,
}

impl Config {
    /// The address of the public service.
    pub open spec fn spec_default_endpoint() -> Seq<char> {
        "https://api.clockify.me/api/"@
    }

    /// Returns a configuration with the given key and the public service's
    /// address.
    pub fn new(api_key: String) -> (config: Config)
        ensures
            config.api_key == api_key,
            config.endpoint@ == Config::spec_default_endpoint(),
    {
        Config { api_key, endpoint: String::from_str("https://api.clockify.me/api/") }
    }
}

} // verus!
