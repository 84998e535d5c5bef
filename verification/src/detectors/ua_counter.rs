use vstd::prelude::*;

use crate::cascade::StateModel;
use crate::clock::{instant_of, parse_instant};
use crate::model::{BanRequest, BanTarget, Request, ban_model, find_header, ua_ban_model};
use crate::pattern::{Matcher, regex_match, regex_ok};
use crate::rules::{BanRule, HeaderError, check_rules, rules_wf};
use crate::table::StateTable;
use crate::validator::{ConfigError, Validator, ValidatorError, states_after, verdict_after};

verus! {

/// Configuration of the per-user-agent request counter.
pub struct Config {
    pub limits: Vec<BanRule>,
    pub patterns: Vec<String>,
    pub ban_description: String,
}

/// Whether a user agent matches at least one of the configured patterns.
pub open spec fn ua_matches(pats: Seq<Seq<char>>, ua: Seq<char>) -> bool {
    exists|i: int| 0 <= i < pats.len() && regex_match(#[trigger] pats[i], ua)
}

/// The full transition `validate` makes: how the successor detector
/// and the result relate to the prior detector and the request.
pub open spec fn step_rel(
    pre: RequestsFromUACounter,
    req: Request,
    post: RequestsFromUACounter,
    r: Result<Option<BanRequest>, ValidatorError>,
) -> bool {
    &&& post.wf()
    &&& post.rules_view() == pre.rules_view()
    &&& post.reason_view() == pre.reason_view()
    &&& post.patterns_view() == pre.patterns_view()
    &&& match r {
        Err(e) => {
            &&& post.states_view() == pre.states_view()
            &&& match e {
                ValidatorError::Header(HeaderError::NotFound(n)) => n@ == "user-agent"@
                    && find_header(req.headers@, "user-agent"@) is None,
                ValidatorError::Timestamp => {
                    &&& find_header(req.headers@, "user-agent"@) matches Some(ua)
                    &&& ua_matches(pre.patterns_view(), ua)
                    &&& instant_of(req.timestamp@) is None
                },
                ValidatorError::Rules(_) => false,
            }
        },
        Ok(v) => {
            &&& find_header(req.headers@, "user-agent"@) matches Some(ua)
            &&& if !ua_matches(pre.patterns_view(), ua) {
                v is None && post.states_view() == pre.states_view()
            } else {
                &&& instant_of(req.timestamp@) is Some
                &&& {
                    let t = instant_of(req.timestamp@).unwrap() as i64;
                    &&& post.states_view() == states_after(
                        pre.rules_view(),
                        pre.states_view(),
                        ua,
                        1,
                        t,
                    )
                    &&& match v {
                        Some(br) => {
                            let verdict = verdict_after(
                                pre.rules_view(),
                                pre.states_view(),
                                ua,
                                1,
                                t,
                            );
                            &&& verdict is Some
                            &&& ban_model(br) == ua_ban_model(
                                ua,
                                pre.reason_view(),
                                pre.rules_view()[verdict.unwrap()].ban_duration_ms as int / 1000,
                            )
                        },
                        None => verdict_after(
                            pre.rules_view(),
                            pre.states_view(),
                            ua,
                            1,
                            t,
                        ) is None,
                    }
                }
            }
        },
    }
}

/// Counts requests per user agent, gated on the agent matching one of
/// the configured patterns, and runs the escalation cascade on the
/// count.
pub struct RequestsFromUACounter {
    ban_description: String,
    rules: Vec<BanRule>,
    patterns: Vec<Matcher>,
    states: StateTable,
}

impl RequestsFromUACounter {
    pub closed spec fn rules_view(&self) -> Seq<BanRule> {
        self.rules@
    }

    pub closed spec fn reason_view(&self) -> Seq<char> {
        self.ban_description@
    }

    pub closed spec fn states_view(&self) -> Map<Seq<char>, StateModel> {
        self.states@
    }

    pub closed spec fn patterns_view(&self) -> Seq<Seq<char>> {
        self.patterns@.map_values(|m: Matcher| m.pat())
    }

    pub closed spec fn wf(&self) -> bool {
        rules_wf(self.rules@) && self.states.wf()
    }

    pub fn new(cfg: Config) -> (r: Result<RequestsFromUACounter, ConfigError>)
        ensures
            match r {
                Ok(d) => {
                    &&& rules_wf(cfg.limits@)
                    &&& d.wf()
                    &&& d.rules_view() == cfg.limits@
                    &&& d.reason_view() == cfg.ban_description@
                    &&& d.states_view() == Map::<Seq<char>, StateModel>::empty()
                    &&& d.patterns_view() == cfg.patterns@.map_values(|p: String| p@)
                },
                Err(e) => !rules_wf(cfg.limits@) || exists|i: int|
                    0 <= i < cfg.patterns@.len() && !regex_ok((#[trigger] cfg.patterns@[i])@),
            },
    {
        if !check_rules(&cfg.limits) {
            if cfg.limits.len() == 0 {
                return Err(ConfigError::EmptyRules);
            }
            return Err(ConfigError::BanDurationTooLarge);
        }
        let mut patterns: Vec<Matcher> = Vec::new();
        let mut i: usize = 0;
        while i < cfg.patterns.len()
            invariant
                i <= cfg.patterns@.len(),
                patterns@.len() == i,
                forall|j: int|
                    0 <= j < i ==> (#[trigger] patterns@[j]).pat() == cfg.patterns@[j]@,
            decreases cfg.patterns@.len() - i,
        {
            match Matcher::compile(cfg.patterns[i].clone()) {
                Some(m) => patterns.push(m),
                None => {
                    return Err(ConfigError::BadPattern(cfg.patterns[i].clone()));
                },
            }
            i = i + 1;
        }
        let d = RequestsFromUACounter {
            ban_description: cfg.ban_description,
            rules: cfg.limits,
            patterns,
            states: StateTable::new(),
        };
        proof {
            assert(d.patterns_view() =~= cfg.patterns@.map_values(|p: String| p@));
        }
        Ok(d)
    }

    /// Whether the user agent passes the pattern gate.
    fn gate(&self, ua: &str) -> (r: bool)
        ensures
            r == ua_matches(self.patterns_view(), ua@),
    {
        let mut i: usize = 0;
        while i < self.patterns.len()
            invariant
                i <= self.patterns@.len(),
                forall|j: int|
                    0 <= j < i ==> !regex_match(#[trigger] self.patterns_view()[j], ua@),
            decreases self.patterns@.len() - i,
        {
            if self.patterns[i].is_match(ua) {
                proof {
                    assert(self.patterns_view()[i as int] == self.patterns@[i as int].pat());
                }
                return true;
            }
            i = i + 1;
        }
        false
    }

    /// Observe one request. The user agent is the target key; requests
    /// whose agent matches no pattern pass untouched; a missing
    /// user-agent header is a structural error.
    pub fn validate(&mut self, req: Request) -> (r: Result<Option<BanRequest>, ValidatorError>)
        requires
            old(self).wf(),
        ensures
            step_rel(*old(self), req, *final(self), r),
    {
        let ua = match req.header("user-agent") {
            Some(v) => v.clone(),
            None => {
                return Err(
                    ValidatorError::Header(HeaderError::NotFound(String::from_str("user-agent"))),
                );
            },
        };
        if !self.gate(ua.as_str()) {
            return Ok(None);
        }
        let t = match parse_instant(req.timestamp.as_str()) {
            Some(t) => t,
            None => {
                return Err(ValidatorError::Timestamp);
            },
        };
        let mut st = self.states.take(&ua);
        let verdict = st.observe(&self.rules, 1, t);
        let ua_again = ua.clone();
        self.states.put(ua_again, st);
        proof {
            assert(self.states@ =~= states_after(
                old(self).rules_view(),
                old(self).states_view(),
                ua@,
                1,
                t,
            ));
        }
        match verdict {
            Some(i) => {
                let ttl = self.rules[i].ttl_seconds();
                Ok(
                    Some(
                        BanRequest {
                            target: BanTarget { ip: None, user_agent: Some(ua) },
                            reason: self.ban_description.clone(),
                            ttl,
                        },
                    ),
                )
            },
            None => Ok(None),
        }
    }

    pub fn name(&self) -> (r: String)
        ensures
            r@ == "requests-from-ua-counter"@,
    {
        String::from_str("requests-from-ua-counter")
    }
}

impl Validator for RequestsFromUACounter {
    open spec fn valid(&self) -> bool {
        self.wf()
    }

    fn validate(&mut self, req: Request) -> Result<Option<BanRequest>, ValidatorError> {
        RequestsFromUACounter::validate(self, req)
    }

    fn name(&self) -> String {
        RequestsFromUACounter::name(self)
    }
}

} // verus!
