use vstd::prelude::*;

use crate::model::BanRequest;

verus! {

/// The header that names the analyzer and validator a ban came from.
pub const ANALYZER_HEADER: &'static str = "X-Analyzer-Id";

/// Why a ban could not be handed to the executor.
pub enum ForwarderError {
    SendRequest(String),
    BuildForwarder(String),
}

/// The port to the firewall executor. The library ships the no-op
/// client; the HTTP client lives with the transport.
pub trait ExecutorClient {
    fn ban(&self, br: &BanRequest, analyzer_id: &String) -> (r: Result<(), ForwarderError>);
}

/// The dry-run executor: accepts every ban and does nothing.
pub struct NoopClient {}

impl ExecutorClient for NoopClient {
    fn ban(&self, br: &BanRequest, analyzer_id: &String) -> (r: Result<(), ForwarderError>) {
        Ok(())
    }
}

/// The header value for a ban: `<analyzer_id>:<validator_name>`.
pub fn analyzer_id_value(analyzer_id: &str, validator_name: &str) -> (r: String)
    ensures
        r@ == analyzer_id@ + ":"@ + validator_name@,
{
    String::from_str(analyzer_id).concat(":").concat(validator_name)
}

/// Whether an executor response settles a ban: exactly 204 does.
pub fn is_success_status(status: u16) -> (r: bool)
    ensures
        r == (status == 204),
{
    status == 204
}

/// Fixed-interval retry: how often to retry and how long to wait.
pub struct RetryPolicy {
    pub retry_count: u64,
    pub retry_interval_ms: u64,
}

/// What the emitter does after one delivery attempt.
pub enum EmitAction {
    Done,
    RetryAfter(u64),
    Drop,
}

/// Decide the next step after an attempt: success settles the ban;
/// failure retries at the fixed interval until the attempts beyond the
/// first exceed `retry_count`; then the ban is dropped.
pub fn next_emit_action(policy: &RetryPolicy, attempts_made: u64, succeeded: bool) -> (r:
    EmitAction)
    requires
        attempts_made >= 1,
    ensures
        match r {
            EmitAction::Done => succeeded,
            EmitAction::RetryAfter(d) => !succeeded && attempts_made <= policy.retry_count
                && d == policy.retry_interval_ms,
            EmitAction::Drop => !succeeded && attempts_made > policy.retry_count,
        },
{
    if succeeded {
        EmitAction::Done
    } else if attempts_made <= policy.retry_count {
        EmitAction::RetryAfter(policy.retry_interval_ms)
    } else {
        EmitAction::Drop
    }
}

/// The emitter stage's fixed data: where bans are attributed to, and
/// how stubbornly they are retried.
pub struct Service {
    pub analyzer_id: String,
    pub policy: RetryPolicy,
}

impl Service {
    pub fn new(analyzer_id: String, policy: RetryPolicy) -> (r: Service)
        ensures
            r.analyzer_id == analyzer_id,
            r.policy == policy,
    {
        Service { analyzer_id, policy }
    }

    /// The `X-Analyzer-Id` value for a ban from the named validator.
    pub fn header_value(&self, validator_name: &str) -> (r: String)
        ensures
            r@ == self.analyzer_id@ + ":"@ + validator_name@,
    {
        analyzer_id_value(self.analyzer_id.as_str(), validator_name)
    }
}

} // verus!
