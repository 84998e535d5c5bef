use vstd::prelude::*;

use crate::cascade::StateModel;
use crate::clock::{instant_of, parse_instant};
use crate::model::{BanRequest, BanTarget, Request, ban_model, ip_ban_model};
use crate::pattern::{Matcher, regex_match, regex_ok};
use crate::rules::{BanRule, check_rules, rules_wf};
use crate::table::StateTable;
use crate::validator::{ConfigError, Validator, ValidatorError, states_after, verdict_after};

verus! {

/// One cost pattern, as configured: a request matching it costs `cost`.
pub struct RequestPatternConfig {
    pub method: Option<String>,
    pub path_regex: String,
    pub body_regex: Option<String>,
    pub cost: u64,
}

/// Configuration of the per-address weighted-cost detector.
pub struct Config {
    pub patterns: Vec<RequestPatternConfig>,
    pub limits: Vec<BanRule>,
    pub ban_description: String,
    pub default_cost: u64,
}

/// A compiled cost pattern.
pub struct Pattern {
    method: Option<String>,
    path_pattern: Matcher,
    body_pattern: Option<Matcher>,
    cost: u64,
}

/// Mathematical image of a cost pattern.
pub ghost struct PatternModel {
    pub method: Option<Seq<char>>,
    pub path: Seq<char>,
    pub body: Option<Seq<char>>,
    pub cost: u64,
}

impl Pattern {
    pub closed spec fn model(&self) -> PatternModel {
        PatternModel {
            method: match self.method {
                Some(ref m) => Some(m@),
                None => None,
            },
            path: self.path_pattern.pat(),
            body: match self.body_pattern {
                Some(ref b) => Some(b.pat()),
                None => None,
            },
            cost: self.cost,
        }
    }

    /// Compile one configured pattern; an unparsable regex is reported
    /// by its text.
    pub fn from_config(cfg: RequestPatternConfig) -> (r: Result<Pattern, ConfigError>)
        ensures
            match r {
                Ok(p) => {
                    &&& regex_ok(cfg.path_regex@)
                    &&& p.model().path == cfg.path_regex@
                    &&& p.model().cost == cfg.cost
                    &&& p.model().method == match cfg.method {
                        Some(m) => Some(m@),
                        None => None::<Seq<char>>,
                    }
                    &&& match cfg.body_regex {
                        Some(b) => regex_ok(b@) && p.model().body == Some(b@),
                        None => p.model().body is None,
                    }
                },
                Err(e) => !regex_ok(cfg.path_regex@) || match cfg.body_regex {
                    Some(b) => !regex_ok(b@),
                    None => false,
                },
            },
    {
        let path_pattern = match Matcher::compile(cfg.path_regex) {
            Some(m) => m,
            None => {
                return Err(ConfigError::BadPattern(String::from_str("path pattern")));
            },
        };
        let body_pattern = match cfg.body_regex {
            Some(b) => {
                match Matcher::compile(b) {
                    Some(m) => Some(m),
                    None => {
                        return Err(ConfigError::BadPattern(String::from_str("body pattern")));
                    },
                }
            },
            None => None,
        };
        Ok(Pattern { method: cfg.method, path_pattern, body_pattern, cost: cfg.cost })
    }
}

/// Whether a configured pattern's regexes compile.
pub open spec fn pattern_config_ok(c: RequestPatternConfig) -> bool {
    regex_ok(c.path_regex@) && match c.body_regex {
        Some(b) => regex_ok(b@),
        None => true,
    }
}

/// A compiled pattern carries exactly what its configuration said.
pub open spec fn pattern_model_fits(p: PatternModel, c: RequestPatternConfig) -> bool {
    &&& p.path == c.path_regex@
    &&& p.cost == c.cost
    &&& p.method == match c.method {
        Some(m) => Some(m@),
        None => None::<Seq<char>>,
    }
    &&& p.body == match c.body_regex {
        Some(b) => Some(b@),
        None => None::<Seq<char>>,
    }
}

/// Whether a request with the given method, path and body satisfies a
/// pattern: the method is unconstrained or equal, the path matches, and
/// the body is unconstrained or matches.
pub open spec fn pattern_applies(
    p: PatternModel,
    method: Seq<char>,
    path: Seq<char>,
    body: Seq<char>,
) -> bool {
    &&& match p.method {
        Some(m) => m == method,
        None => true,
    }
    &&& regex_match(p.path, path)
    &&& match p.body {
        Some(b) => regex_match(b, body),
        None => true,
    }
}

/// The cost of a request: the cost of the first pattern it satisfies,
/// or the default cost when none applies.
pub open spec fn cost_of(
    pats: Seq<PatternModel>,
    default_cost: u64,
    method: Seq<char>,
    path: Seq<char>,
    body: Seq<char>,
) -> u64
    decreases pats.len(),
{
    if pats.len() == 0 {
        default_cost
    } else if pattern_applies(pats[0], method, path, body) {
        pats[0].cost
    } else {
        cost_of(pats.drop_first(), default_cost, method, path, body)
    }
}

/// The full transition `validate` makes: how the successor detector
/// and the result relate to the prior detector and the request.
pub open spec fn step_rel(
    pre: RequestsFromIPCost,
    req: Request,
    post: RequestsFromIPCost,
    r: Result<Option<BanRequest>, ValidatorError>,
) -> bool {
    &&& post.wf()
    &&& post.rules_view() == pre.rules_view()
    &&& post.reason_view() == pre.reason_view()
    &&& post.patterns_view() == pre.patterns_view()
    &&& post.default_cost_view() == pre.default_cost_view()
    &&& match r {
        Err(e) => {
            &&& post.states_view() == pre.states_view()
            &&& e is Timestamp
            &&& instant_of(req.timestamp@) is None
        },
        Ok(v) => {
            &&& instant_of(req.timestamp@) is Some
            &&& {
                let t = instant_of(req.timestamp@).unwrap() as i64;
                let key = req.remote_ip@;
                let cost = cost_of(
                    pre.patterns_view(),
                    pre.default_cost_view(),
                    req.method@,
                    req.path@,
                    req.body.text_view(),
                );
                &&& post.states_view() == states_after(
                    pre.rules_view(),
                    pre.states_view(),
                    key,
                    cost,
                    t,
                )
                &&& match v {
                    Some(br) => {
                        let verdict = verdict_after(
                            pre.rules_view(),
                            pre.states_view(),
                            key,
                            cost,
                            t,
                        );
                        &&& verdict is Some
                        &&& ban_model(br) == ip_ban_model(
                            key,
                            pre.reason_view(),
                            pre.rules_view()[verdict.unwrap()].ban_duration_ms as int / 1000,
                        )
                    },
                    None => verdict_after(
                        pre.rules_view(),
                        pre.states_view(),
                        key,
                        cost,
                        t,
                    ) is None,
                }
            }
        },
    }
}

/// Weighs each request per the pattern table, aggregates cost per
/// remote address in the entry window, and runs the escalation cascade
/// on the total.
pub struct RequestsFromIPCost {
    ban_description: String,
    rules: Vec<BanRule>,
    patterns: Vec<Pattern>,
    default_cost: u64,
    states: StateTable,
}

impl RequestsFromIPCost {
    pub closed spec fn rules_view(&self) -> Seq<BanRule> {
        self.rules@
    }

    pub closed spec fn reason_view(&self) -> Seq<char> {
        self.ban_description@
    }

    pub closed spec fn states_view(&self) -> Map<Seq<char>, StateModel> {
        self.states@
    }

    pub closed spec fn patterns_view(&self) -> Seq<PatternModel> {
        self.patterns@.map_values(|p: Pattern| p.model())
    }

    pub closed spec fn default_cost_view(&self) -> u64 {
        self.default_cost
    }

    pub closed spec fn wf(&self) -> bool {
        rules_wf(self.rules@) && self.states.wf()
    }

    pub fn new(cfg: Config) -> (r: Result<RequestsFromIPCost, ConfigError>)
        ensures
            match r {
                Ok(d) => {
                    &&& rules_wf(cfg.limits@)
                    &&& d.wf()
                    &&& d.rules_view() == cfg.limits@
                    &&& d.reason_view() == cfg.ban_description@
                    &&& d.states_view() == Map::<Seq<char>, StateModel>::empty()
                    &&& d.default_cost_view() == cfg.default_cost
                    &&& d.patterns_view().len() == cfg.patterns@.len()
                    &&& forall|j: int|
                        0 <= j < cfg.patterns@.len() ==> pattern_model_fits(
                            #[trigger] d.patterns_view()[j],
                            cfg.patterns@[j],
                        )
                },
                Err(e) => !rules_wf(cfg.limits@) || exists|j: int|
                    0 <= j < cfg.patterns@.len() && !pattern_config_ok(#[trigger] cfg.patterns@[j]),
            },
    {
        if !check_rules(&cfg.limits) {
            if cfg.limits.len() == 0 {
                return Err(ConfigError::EmptyRules);
            }
            return Err(ConfigError::BanDurationTooLarge);
        }
        let mut patterns: Vec<Pattern> = Vec::new();
        let mut cfgs = cfg.patterns;
        let ghost cfgs0 = cfgs@;
        let n = cfgs.len();
        let mut i: usize = 0;
        proof {
            assert(cfgs@ =~= cfgs0.skip(0));
        }
        while i < n
            invariant
                i <= n,
                n == cfgs0.len(),
                cfgs0 == cfg.patterns@,
                cfgs@ == cfgs0.skip(i as int),
                patterns@.len() == i,
                forall|j: int|
                    0 <= j < i ==> pattern_model_fits(
                        (#[trigger] patterns@[j]).model(),
                        cfgs0[j],
                    ),
            decreases n - i,
        {
            proof {
                assert(cfgs0.skip(i as int)[0] == cfgs0[i as int]);
                assert(cfgs0.skip(i as int).drop_first() =~= cfgs0.skip(i as int + 1));
            }
            let pc = cfgs.remove(0);
            match Pattern::from_config(pc) {
                Ok(p) => patterns.push(p),
                Err(e) => {
                    proof {
                        assert(!pattern_config_ok(cfg.patterns@[i as int]));
                    }
                    return Err(e);
                },
            }
            i = i + 1;
        }
        let d = RequestsFromIPCost {
            ban_description: cfg.ban_description,
            rules: cfg.limits,
            patterns,
            default_cost: cfg.default_cost,
            states: StateTable::new(),
        };
        proof {
            assert forall|j: int| 0 <= j < cfgs0.len() implies pattern_model_fits(
                #[trigger] d.patterns_view()[j],
                cfgs0[j],
            ) by {
                assert(d.patterns_view()[j] == d.patterns@[j].model());
            }
        }
        Ok(d)
    }

    /// The cost of one request under this detector's pattern table.
    fn evaluate_request(&self, req: &Request) -> (r: u64)
        ensures
            r == cost_of(
                self.patterns_view(),
                self.default_cost_view(),
                req.method@,
                req.path@,
                req.body.text_view(),
            ),
    {
        let body = req.body.text();
        let mut i: usize = 0;
        proof {
            assert(self.patterns_view().skip(0) =~= self.patterns_view());
        }
        while i < self.patterns.len()
            invariant
                i <= self.patterns@.len(),
                req.body.text_view() == body@,
                cost_of(
                    self.patterns_view().skip(i as int),
                    self.default_cost_view(),
                    req.method@,
                    req.path@,
                    body@,
                ) == cost_of(
                    self.patterns_view(),
                    self.default_cost_view(),
                    req.method@,
                    req.path@,
                    body@,
                ),
            decreases self.patterns@.len() - i,
        {
            proof {
                let pv = self.patterns_view();
                assert(pv.skip(i as int)[0] == pv[i as int]);
                assert(pv.skip(i as int).drop_first() =~= pv.skip(i as int + 1));
                assert(pv[i as int] == self.patterns@[i as int].model());
            }
            let p = &self.patterns[i];
            let method_fits = match &p.method {
                Some(m) => *m == req.method,
                None => true,
            };
            if method_fits && p.path_pattern.is_match(req.path.as_str()) {
                let body_fits = match &p.body_pattern {
                    Some(b) => b.is_match(body),
                    None => true,
                };
                if body_fits {
                    proof {
                        assert(pattern_applies(
                            self.patterns_view()[i as int],
                            req.method@,
                            req.path@,
                            body@,
                        ));
                    }
                    return p.cost;
                }
            }
            proof {
                assert(!pattern_applies(
                    self.patterns_view()[i as int],
                    req.method@,
                    req.path@,
                    body@,
                ));
            }
            i = i + 1;
        }
        proof {
            assert(self.patterns_view().skip(self.patterns@.len() as int) =~= Seq::<
                PatternModel,
            >::empty());
        }
        self.default_cost
    }

    /// Observe one request. The remote address is the target key; the
    /// request counts its pattern cost at the instant its timestamp
    /// carries.
    pub fn validate(&mut self, req: Request) -> (r: Result<Option<BanRequest>, ValidatorError>)
        requires
            old(self).wf(),
        ensures
            step_rel(*old(self), req, *final(self), r),
    {
        let t = match parse_instant(req.timestamp.as_str()) {
            Some(t) => t,
            None => {
                return Err(ValidatorError::Timestamp);
            },
        };
        let cost = self.evaluate_request(&req);
        let key = req.remote_ip.clone();
        let mut st = self.states.take(&key);
        let verdict = st.observe(&self.rules, cost, t);
        self.states.put(key, st);
        proof {
            assert(self.states@ =~= states_after(
                old(self).rules_view(),
                old(self).states_view(),
                req.remote_ip@,
                cost,
                t,
            ));
        }
        match verdict {
            Some(i) => {
                let ttl = self.rules[i].ttl_seconds();
                Ok(
                    Some(
                        BanRequest {
                            target: BanTarget { ip: Some(req.remote_ip), user_agent: None },
                            reason: self.ban_description.clone(),
                            ttl,
                        },
                    ),
                )
            },
            None => Ok(None),
        }
    }

    pub fn name(&self) -> (r: String)
        ensures
            r@ == "requests-from-ip-cost"@,
    {
        String::from_str("requests-from-ip-cost")
    }
}

impl Validator for RequestsFromIPCost {
    open spec fn valid(&self) -> bool {
        self.wf()
    }

    fn validate(&mut self, req: Request) -> Result<Option<BanRequest>, ValidatorError> {
        RequestsFromIPCost::validate(self, req)
    }

    fn name(&self) -> String {
        RequestsFromIPCost::name(self)
    }
}

} // verus!
