use vstd::prelude::*;

use crate::model::{BanRequest, BanTarget, Request, ban_model, ip_ban_model};
use crate::strutil::{dec_digits, decimal_string};
use crate::validator::{Validator, ValidatorError};

verus! {

/// Configuration of the testing validator: its index and an optional
/// ban length in seconds.
pub struct Config {
    pub idx: u16,
    pub ban_duration_secs: Option<u64>,
}

/// The reason carried by every ban this validator emits.
pub open spec fn dummy_reason(idx: int) -> Seq<char> {
    "Validator has "@ + dec_digits(idx) + " id"@
}

/// A testing validator: odd-indexed instances ban every remote address
/// they see; even-indexed ones never do.
pub struct Dummy {
    pub idx: u16,
    pub ban_ttl_secs: u32,
}

/// The full transition `validate` makes.
pub open spec fn step_rel(
    pre: Dummy,
    req: Request,
    post: Dummy,
    r: Result<Option<BanRequest>, ValidatorError>,
) -> bool {
    &&& post == pre
    &&& match r {
        Ok(v) => match v {
            Some(br) => pre.idx % 2 == 1 && ban_model(br) == ip_ban_model(
                req.remote_ip@,
                dummy_reason(pre.idx as int),
                pre.ban_ttl_secs as int,
            ),
            None => pre.idx % 2 == 0,
        },
        Err(_) => false,
    }
}

impl Dummy {
    /// The configured ban length defaults to two minutes; seconds past
    /// the `u32` range are wrapped as a cast would.
    pub fn new(cfg: Config) -> (r: Dummy)
        ensures
            r.idx == cfg.idx,
            r.ban_ttl_secs as int == (match cfg.ban_duration_secs {
                Some(s) => s as int % 0x1_0000_0000,
                None => 120,
            }),
    {
        let secs: u64 = match cfg.ban_duration_secs {
            Some(s) => s,
            None => 120,
        };
        Dummy { idx: cfg.idx, ban_ttl_secs: (secs % 0x1_0000_0000) as u32 }
    }

    pub fn validate(&mut self, req: Request) -> (r: Result<Option<BanRequest>, ValidatorError>)
        ensures
            step_rel(*old(self), req, *final(self), r),
    {
        if self.idx % 2 == 1 {
            let d = decimal_string(self.idx as u64);
            let reason = String::from_str("Validator has ").concat(d.as_str()).concat(" id");
            return Ok(
                Some(
                    BanRequest {
                        target: BanTarget { ip: Some(req.remote_ip), user_agent: None },
                        reason,
                        ttl: self.ban_ttl_secs,
                    },
                ),
            );
        }
        Ok(None)
    }

    pub fn name(&self) -> (r: String)
        ensures
            r@ == "dummy-"@ + dec_digits(self.idx as int),
    {
        let d = decimal_string(self.idx as u64);
        String::from_str("dummy-").concat(d.as_str())
    }
}

impl Validator for Dummy {
    open spec fn valid(&self) -> bool {
        true
    }

    fn validate(&mut self, req: Request) -> Result<Option<BanRequest>, ValidatorError> {
        Dummy::validate(self, req)
    }

    fn name(&self) -> String {
        Dummy::name(self)
    }
}

} // verus!
