use vstd::prelude::*;

use crate::detectors::dummy;
use crate::detectors::dummy::Dummy;
use crate::detectors::ip_cost;
use crate::detectors::ip_cost::RequestsFromIPCost;
use crate::detectors::ip_counter;
use crate::detectors::ip_counter::RequestsFromIPCounter;
use crate::detectors::ua_counter;
use crate::detectors::ua_counter::RequestsFromUACounter;
use crate::model::{BanModel, BanRequest, Request, ValidatorBanRequest, ban_model};
use crate::strutil::dec_digits;
use crate::validator::{ConfigError, ValidatorError};

verus! {

/// Configuration of one validator of the cascade family, tagged by
/// variant.
pub enum Config {
    Dummy(dummy::Config),
    RequestsFromIPCounter(ip_counter::Config),
    RequestsFromUACounter(ua_counter::Config),
    RequestsFromIPCost(ip_cost::Config),
}

/// One detector of the family, dispatched by variant.
pub enum AnyValidator {
    Dummy(Dummy),
    RequestsFromIPCounter(RequestsFromIPCounter),
    RequestsFromUACounter(RequestsFromUACounter),
    RequestsFromIPCost(RequestsFromIPCost),
}

/// Build the detector a configuration entry asks for, carrying the
/// configuration into the detector unchanged.
pub fn get_validator(cfg: Config) -> (r: Result<AnyValidator, ConfigError>)
    ensures
        match r {
            Ok(v) => v.wf() && match cfg {
                Config::Dummy(c) => v matches AnyValidator::Dummy(d) && d.idx == c.idx,
                Config::RequestsFromIPCounter(c) => v matches AnyValidator::RequestsFromIPCounter(
                    d,
                ) && d.rules_view() == c.limits@ && d.reason_view() == c.ban_description@
                    && d.states_view() == Map::<Seq<char>, crate::cascade::StateModel>::empty(),
                Config::RequestsFromUACounter(c) => v matches AnyValidator::RequestsFromUACounter(
                    d,
                ) && d.rules_view() == c.limits@ && d.reason_view() == c.ban_description@
                    && d.patterns_view() == c.patterns@.map_values(|p: String| p@)
                    && d.states_view() == Map::<Seq<char>, crate::cascade::StateModel>::empty(),
                Config::RequestsFromIPCost(c) => v matches AnyValidator::RequestsFromIPCost(d)
                    && d.rules_view() == c.limits@ && d.reason_view() == c.ban_description@
                    && d.default_cost_view() == c.default_cost && d.states_view() == Map::<
                    Seq<char>,
                    crate::cascade::StateModel,
                >::empty(),
            },
            Err(_) => !(cfg matches Config::Dummy(_)),
        },
{
    match cfg {
        Config::Dummy(c) => Ok(AnyValidator::Dummy(Dummy::new(c))),
        Config::RequestsFromIPCounter(c) => match RequestsFromIPCounter::new(c) {
            Ok(d) => Ok(AnyValidator::RequestsFromIPCounter(d)),
            Err(e) => Err(e),
        },
        Config::RequestsFromUACounter(c) => match RequestsFromUACounter::new(c) {
            Ok(d) => Ok(AnyValidator::RequestsFromUACounter(d)),
            Err(e) => Err(e),
        },
        Config::RequestsFromIPCost(c) => match RequestsFromIPCost::new(c) {
            Ok(d) => Ok(AnyValidator::RequestsFromIPCost(d)),
            Err(e) => Err(e),
        },
    }
}

/// The transition one detector of the family makes on one request.
pub open spec fn any_step_rel(
    pre: AnyValidator,
    req: Request,
    post: AnyValidator,
    r: Result<Option<BanRequest>, ValidatorError>,
) -> bool {
    match pre {
        AnyValidator::Dummy(a) => post matches AnyValidator::Dummy(b) && dummy::step_rel(
            a,
            req,
            b,
            r,
        ),
        AnyValidator::RequestsFromIPCounter(a) => post matches AnyValidator::RequestsFromIPCounter(
            b,
        ) && ip_counter::step_rel(a, req, b, r),
        AnyValidator::RequestsFromUACounter(a) => post matches AnyValidator::RequestsFromUACounter(
            b,
        ) && ua_counter::step_rel(a, req, b, r),
        AnyValidator::RequestsFromIPCost(a) => post matches AnyValidator::RequestsFromIPCost(b)
            && ip_cost::step_rel(a, req, b, r),
    }
}

impl AnyValidator {
    pub open spec fn wf(&self) -> bool {
        match self {
            AnyValidator::Dummy(_) => true,
            AnyValidator::RequestsFromIPCounter(d) => d.wf(),
            AnyValidator::RequestsFromUACounter(d) => d.wf(),
            AnyValidator::RequestsFromIPCost(d) => d.wf(),
        }
    }

    /// The name this detector reports on its bans.
    pub open spec fn name_view(&self) -> Seq<char> {
        match self {
            AnyValidator::Dummy(d) => "dummy-"@ + dec_digits(d.idx as int),
            AnyValidator::RequestsFromIPCounter(_) => "requests-from-ip-counter"@,
            AnyValidator::RequestsFromUACounter(_) => "requests-from-ua-counter"@,
            AnyValidator::RequestsFromIPCost(_) => "requests-from-ip-cost"@,
        }
    }

    pub fn validate(&mut self, req: Request) -> (r: Result<Option<BanRequest>, ValidatorError>)
        requires
            old(self).wf(),
        ensures
            final(self).wf(),
            any_step_rel(*old(self), req, *final(self), r),
    {
        match self {
            AnyValidator::Dummy(d) => d.validate(req),
            AnyValidator::RequestsFromIPCounter(d) => d.validate(req),
            AnyValidator::RequestsFromUACounter(d) => d.validate(req),
            AnyValidator::RequestsFromIPCost(d) => d.validate(req),
        }
    }

    pub fn name(&self) -> (r: String)
        ensures
            r@ == self.name_view(),
    {
        match self {
            AnyValidator::Dummy(d) => d.name(),
            AnyValidator::RequestsFromIPCounter(d) => d.name(),
            AnyValidator::RequestsFromUACounter(d) => d.name(),
            AnyValidator::RequestsFromIPCost(d) => d.name(),
        }
    }
}

/// The bans a round of validation forwards: for each detector in
/// order, its emitted ban tagged with its name, errors and silent
/// verdicts skipped.
pub open spec fn emitted(
    rs: Seq<Result<Option<BanRequest>, ValidatorError>>,
    names: Seq<Seq<char>>,
) -> Seq<(BanModel, Seq<char>)>
    decreases rs.len(),
{
    if rs.len() == 0 {
        Seq::empty()
    } else {
        emitted(rs.drop_last(), names.drop_last()) + (match rs.last() {
            Ok(Some(br)) => seq![(ban_model(br), names.last())],
            _ => Seq::empty(),
        })
    }
}

/// The validation stage: fans each request across the detectors in
/// insertion order and collects their bans.
pub struct Service {
    pub validators: Vec<AnyValidator>,
}

impl Service {
    pub open spec fn wf(&self) -> bool {
        forall|i: int| 0 <= i < self.validators@.len() ==> (#[trigger] self.validators@[i]).wf()
    }

    pub fn from_validators(validators: Vec<AnyValidator>) -> (r: Service)
        ensures
            r.validators@ == validators@,
    {
        Service { validators }
    }

    /// Run every detector on one request, in order. A detector's error
    /// skips that detector alone; its ban is tagged with its name and
    /// collected. The detectors advance exactly by their step
    /// relations.
    pub fn process(&mut self, req: &Request) -> (out: Vec<ValidatorBanRequest>)
        requires
            old(self).wf(),
        ensures
            final(self).wf(),
            final(self).validators@.len() == old(self).validators@.len(),
            exists|rs: Seq<Result<Option<BanRequest>, ValidatorError>>|
                #![trigger rs.len()]
                {
                    &&& rs.len() == old(self).validators@.len()
                    &&& (forall|i: int|
                        0 <= i < rs.len() ==> any_step_rel(
                            old(self).validators@[i],
                            *req,
                            final(self).validators@[i],
                            #[trigger] rs[i],
                        ))
                    &&& out@.map_values(
                        |v: ValidatorBanRequest| (ban_model(v.ban_request), v.validator_name@),
                    ) == emitted(
                        rs,
                        old(self).validators@.map_values(|v: AnyValidator| v.name_view()),
                    )
                },
    {
        let ghost names = old(self).validators@.map_values(|v: AnyValidator| v.name_view());
        let mut out: Vec<ValidatorBanRequest> = Vec::new();
        let ghost mut rs: Seq<Result<Option<BanRequest>, ValidatorError>> = Seq::empty();
        let n = self.validators.len();
        let mut i: usize = 0;
        while i < n
            invariant
                n == self.validators@.len(),
                self.validators@.len() == old(self).validators@.len(),
                i <= n,
                rs.len() == i,
                names == old(self).validators@.map_values(|v: AnyValidator| v.name_view()),
                forall|j: int|
                    0 <= j < i ==> any_step_rel(
                        old(self).validators@[j],
                        *req,
                        self.validators@[j],
                        #[trigger] rs[j],
                    ),
                forall|j: int|
                    i <= j < n ==> #[trigger] self.validators@[j] == old(self).validators@[j],
                forall|j: int| 0 <= j < n ==> (#[trigger] self.validators@[j]).wf(),
                out@.map_values(
                    |v: ValidatorBanRequest| (ban_model(v.ban_request), v.validator_name@),
                ) == emitted(rs, names.take(i as int)),
            decreases n - i,
        {
            let ghost pre_v = self.validators@[i as int];
            let dup = req.duplicate();
            let r = self.validators[i].validate(dup);
            let ghost post_v = self.validators@[i as int];
            let ghost rs_old = rs;
            proof {
                assert(any_step_rel(pre_v, dup, post_v, r));
                lemma_step_rel_views(pre_v, dup, *req, post_v, r);
                rs = rs.push(r);
                assert(names.take(i as int + 1).drop_last() =~= names.take(i as int));
                assert(rs.drop_last() =~= rs_old);
                assert(rs.last() == r);
                assert(names.take(i as int + 1).last() == names[i as int]);
                assert(emitted(rs, names.take(i as int + 1)) == emitted(rs_old, names.take(i as int))
                    + (match r {
                    Ok(Some(br)) => seq![(ban_model(br), names[i as int])],
                    _ => Seq::<(crate::model::BanModel, Seq<char>)>::empty(),
                }));
            }
            match r {
                Ok(Some(ban_request)) => {
                    let validator_name = self.validators[i].name();
                    proof {
                        assert(self.validators@[i as int].name_view() == pre_v.name_view()) by {
                            lemma_step_preserves_name(pre_v, *req, post_v, r);
                        }
                        assert(names[i as int] == pre_v.name_view());
                    }
                    out.push(ValidatorBanRequest { ban_request, validator_name });
                    proof {
                        assert(out@.map_values(
                            |v: ValidatorBanRequest| (ban_model(v.ban_request), v.validator_name@),
                        ) =~= emitted(rs, names.take(i as int + 1)));
                    }
                },
                _ => {
                    proof {
                        assert(out@.map_values(
                            |v: ValidatorBanRequest| (ban_model(v.ban_request), v.validator_name@),
                        ) =~= emitted(rs, names.take(i as int + 1)));
                    }
                },
            }
            i = i + 1;
        }
        proof {
            assert(names.take(n as int) =~= names);
        }
        out
    }
}

/// A step relation only reads the request's views, so it carries over
/// to any request with the same views.
proof fn lemma_step_rel_views(
    pre: AnyValidator,
    a: Request,
    b: Request,
    post: AnyValidator,
    r: Result<Option<BanRequest>, ValidatorError>,
)
    requires
        any_step_rel(pre, a, post, r),
        a.timestamp == b.timestamp,
        a.remote_ip == b.remote_ip,
        a.method == b.method,
        a.path == b.path,
        a.headers@ == b.headers@,
        a.body == b.body,
    ensures
        any_step_rel(pre, b, post, r),
{
}

/// A detector's name does not change as it observes requests.
proof fn lemma_step_preserves_name(
    pre: AnyValidator,
    req: Request,
    post: AnyValidator,
    r: Result<Option<BanRequest>, ValidatorError>,
)
    requires
        any_step_rel(pre, req, post, r),
    ensures
        post.name_view() == pre.name_view(),
{
}

} // verus!
