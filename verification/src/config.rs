//! Configuration data: the transport host and port, and the minimum
//! retention days.

use vstd::prelude::*;
use crate::digits::{all_digits, digits_val, parse_u32};

verus! {

/// The configurable data of the system: the search-engine host and port,
/// and the deployment-wide minimum retention days below which deletion is
/// never allowed. Each setting is required; reading them from the process
/// environment happens outside the library, which receives them as plain
/// strings.
#[derive(Debug, PartialEq, Eq, PartialOrd, Ord)]
pub struct Config {
    pub host: String,
    pub port: u16,
    pub min_days: u32,
}

impl Config {
    /// A well-formed configuration: the retention floor fits a signed
    /// 32-bit day count, as the deletion boundary it is compared with does.
    pub open spec fn wf(self) -> bool {
        self.min_days <= 0x7fff_ffff
    }

    /// Builds a configuration from a host name and the port and minimum
    /// retention days given as digit strings, as they come from the
    /// environment. The numeric strings must be runs of digits denoting
    /// values in range of the respective fields.
    pub fn new(host: &str, port: &str, min_days: &str) -> (r: Config)
        requires
            all_digits(port@),
            digits_val(port@) <= u16::MAX,
            all_digits(min_days@),
            digits_val(min_days@) <= 0x7fff_ffff,
        ensures
            r.host@ == host@,
            r.port == digits_val(port@),
            r.min_days == digits_val(min_days@),
            r.wf(),
    {
        let p = parse_u32(port).unwrap();
        let m = parse_u32(min_days).unwrap();
        Config { host: host.to_owned(), port: p as u16, min_days: m }
    }
}

} // verus!
