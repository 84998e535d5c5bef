use vstd::prelude::*;

use crate::model::{BanTarget, Request};

verus! {

/// A projection of a request onto a scalar weight.
pub trait RequestCoster {
    fn cost(&self, r: &Request) -> u64;
}

/// The plain counter's weight: every request costs one.
pub struct CostCount {}

impl RequestCoster for CostCount {
    fn cost(&self, r: &Request) -> (c: u64)
        ensures
            c == 1,
    {
        1
    }
}

/// A target key holding a remote address.
#[derive(Debug, Clone, PartialEq, Eq, Hash)]
pub struct RequestIP {
    pub ip: String,
}

impl RequestIP {
    /// The key a request projects to.
    pub fn of_request(r: &Request) -> (k: RequestIP)
        ensures
            k.ip@ == r.remote_ip@,
    {
        RequestIP { ip: r.remote_ip.clone() }
    }

    /// The ban target this key stands for.
    pub fn into_target(self) -> (t: BanTarget)
        ensures
            t.ip == Some(self.ip),
            t.user_agent is None,
    {
        BanTarget { ip: Some(self.ip), user_agent: None }
    }
}

/// One cost rule, as configured: method, two patterns and a weight.
pub struct CostRuleConfig {
    pub method: String,
    pub path_pattern: String,
    pub body_pattern: String,
    pub cost: u64,
}

} // verus!
