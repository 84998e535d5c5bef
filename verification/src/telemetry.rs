use vstd::prelude::*;

verus! {

/// How log lines are rendered.
#[derive(Debug, Clone, PartialEq, Eq)]
pub enum LogsFormat {
    Full,
    Compact,
    Pretty,
    Json,
}

/// The format used when the configuration names none.
pub fn default_format() -> (r: LogsFormat)
    ensures
        r is Full,
{
    LogsFormat::Full
}

} // verus!
