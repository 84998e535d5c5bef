use vstd::prelude::*;

use crate::cascade::StateModel;
use crate::clock::{instant_of, parse_instant};
use crate::model::{BanRequest, BanTarget, Request, ban_model, ip_ban_model};
use crate::rules::{BanRule, check_rules, rules_wf};
use crate::table::StateTable;
use crate::validator::{ConfigError, Validator, ValidatorError, states_after, verdict_after};

verus! {

/// Configuration of the per-address request counter.
pub struct Config {
    pub limits: Vec<BanRule>,
    pub ban_description: String,
}

/// The full transition `validate` makes: how the successor detector
/// and the result relate to the prior detector and the request.
pub open spec fn step_rel(
    pre: RequestsFromIPCounter,
    req: Request,
    post: RequestsFromIPCounter,
    r: Result<Option<BanRequest>, ValidatorError>,
) -> bool {
    &&& post.wf()
    &&& post.rules_view() == pre.rules_view()
    &&& post.reason_view() == pre.reason_view()
    &&& match r {
        Err(e) => {
            &&& post.states_view() == pre.states_view()
            &&& e is Timestamp
            &&& instant_of(req.timestamp@) is None
        },
        Ok(v) => {
            &&& instant_of(req.timestamp@) is Some
            &&& {
                let t = instant_of(req.timestamp@).unwrap() as i64;
                let key = req.remote_ip@;
                &&& post.states_view() == states_after(
                    pre.rules_view(),
                    pre.states_view(),
                    key,
                    1,
                    t,
                )
                &&& match v {
                    Some(br) => {
                        let verdict = verdict_after(
                            pre.rules_view(),
                            pre.states_view(),
                            key,
                            1,
                            t,
                        );
                        &&& verdict is Some
                        &&& ban_model(br) == ip_ban_model(
                            key,
                            pre.reason_view(),
                            pre.rules_view()[verdict.unwrap()].ban_duration_ms as int / 1000,
                        )
                    },
                    None => verdict_after(pre.rules_view(), pre.states_view(), key, 1, t) is None,
                }
            }
        },
    }
}

/// Counts requests per remote address in the entry window and runs the
/// escalation cascade on the count.
pub struct RequestsFromIPCounter {
    ban_description: String,
    rules: Vec<BanRule>,
    states: StateTable,
}

impl RequestsFromIPCounter {
    pub closed spec fn rules_view(&self) -> Seq<BanRule> {
        self.rules@
    }

    pub closed spec fn reason_view(&self) -> Seq<char> {
        self.ban_description@
    }

    pub closed spec fn states_view(&self) -> Map<Seq<char>, StateModel> {
        self.states@
    }

    pub closed spec fn wf(&self) -> bool {
        rules_wf(self.rules@) && self.states.wf()
    }

    pub fn new(cfg: Config) -> (r: Result<RequestsFromIPCounter, ConfigError>)
        ensures
            match r {
                Ok(d) => {
                    &&& rules_wf(cfg.limits@)
                    &&& d.wf()
                    &&& d.rules_view() == cfg.limits@
                    &&& d.reason_view() == cfg.ban_description@
                    &&& d.states_view() == Map::<Seq<char>, StateModel>::empty()
                },
                Err(e) => !rules_wf(cfg.limits@),
            },
    {
        if !check_rules(&cfg.limits) {
            if cfg.limits.len() == 0 {
                return Err(ConfigError::EmptyRules);
            }
            return Err(ConfigError::BanDurationTooLarge);
        }
        Ok(
            RequestsFromIPCounter {
                ban_description: cfg.ban_description,
                rules: cfg.limits,
                states: StateTable::new(),
            },
        )
    }

    /// Observe one request. The remote address is the target key; the
    /// request counts cost 1 at the instant its timestamp carries.
    pub fn validate(&mut self, req: Request) -> (r: Result<Option<BanRequest>, ValidatorError>)
        requires
            old(self).wf(),
        ensures
            step_rel(*old(self), req, *final(self), r),
    {
        let t = match parse_instant(req.timestamp.as_str()) {
            Some(t) => t,
            None => {
                return Err(ValidatorError::Timestamp);
            },
        };
        let key = req.remote_ip.clone();
        let mut st = self.states.take(&key);
        let verdict = st.observe(&self.rules, 1, t);
        self.states.put(key, st);
        proof {
            assert(self.states@ =~= states_after(
                old(self).rules_view(),
                old(self).states_view(),
                req.remote_ip@,
                1,
                t,
            ));
        }
        match verdict {
            Some(i) => {
                let ttl = self.rules[i].ttl_seconds();
                Ok(
                    Some(
                        BanRequest {
                            target: BanTarget { ip: Some(req.remote_ip), user_agent: None },
                            reason: self.ban_description.clone(),
                            ttl,
                        },
                    ),
                )
            },
            None => Ok(None),
        }
    }

    pub fn name(&self) -> (r: String)
        ensures
            r@ == "requests-from-ip-counter"@,
    {
        String::from_str("requests-from-ip-counter")
    }
}

impl Validator for RequestsFromIPCounter {
    open spec fn valid(&self) -> bool {
        self.wf()
    }

    fn validate(&mut self, req: Request) -> Result<Option<BanRequest>, ValidatorError> {
        RequestsFromIPCounter::validate(self, req)
    }

    fn name(&self) -> String {
        RequestsFromIPCounter::name(self)
    }
}

} // verus!
