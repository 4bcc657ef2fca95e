//! The requests the tool serves: verifying that an export parses, and
//! reporting a metric's trend. Argument reading itself stays at the
//! process boundary; these are the plain shapes it fills in.
use vstd::prelude::*;
use vstd::string::*;
use crate::records::ActivityType;
use crate::trend::MetricType;

verus! {

/// Arguments of the verify operation.
pub struct VerifyArgs {
    /// The directory extracted from the downloaded export archive.
    pub dir: String,
}

/// Arguments of the trend operation.
pub struct TrendArgs {
    /// The directory extracted from the downloaded export archive.
    pub dir: String,
    /// The activity to inspect.
    pub activity: ActivityType,
    /// The metric to inspect.
    pub metric: MetricType,
}

/// One invocation's request.
pub enum Command {
    /// Verify that the archive can be parsed.
    Verify(VerifyArgs),
    /// Show a metric for an activity over time.
    Trend(TrendArgs),
}

pub struct Cli {
    pub command: Command,
}

/// Interactive login is not part of this tool: callers always get the
/// error to report.
pub fn do_login() -> (r: Result<(), String>)
    ensures
        r matches Err(m) && m@ == "login is not supported"@,
{
    Err(String::from_str("login is not supported"))
}

} // verus!
