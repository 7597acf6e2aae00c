//! Start-up settings of the processor: the validator endpoint, the console
//! log level and the trace exporter's configuration.

use vstd::prelude::*;

verus! {

/// How much the console log shows.
#[derive(Clone, Copy, Debug, PartialEq, Eq, Structural)]
pub enum LogLevel {
    Warn,
    Info,
    Debug,
    Trace,
}

/// What the trace exporter is set up with.
#[derive(Debug)]
pub struct TracerSettings {
    pub service_name: String,
    pub collector_endpoint: String,
    pub version_tag: String,
    pub always_sample: bool,
}

pub open spec fn level_spec(verbose: u64) -> LogLevel {
    if verbose == 0 {
        LogLevel::Warn
    } else if verbose == 1 {
        LogLevel::Info
    } else if verbose == 2 {
        LogLevel::Debug
    } else {
        LogLevel::Trace
    }
}

/// The log level for the number of times the verbose flag was given.
pub fn console_log_level(verbose: u64) -> (r: LogLevel)
    ensures
        r == level_spec(verbose),
{
    if verbose == 0 {
        LogLevel::Warn
    } else if verbose == 1 {
        LogLevel::Info
    } else if verbose == 2 {
        LogLevel::Debug
    } else {
        LogLevel::Trace
    }
}

/// The validator endpoint: the one given, else the local default.
pub fn endpoint_or_default(given: Option<String>) -> (r: String)
    ensures
        given matches Some(e) ==> r@ == e@,
        given is None ==> r@ == "tcp://localhost:4004"@,
{
    match given {
        Some(e) => e,
        None => "tcp://localhost:4004".to_owned(),
    }
}

/// The trace exporter's configuration: the identity service, reporting to
/// the local collector, sampling every trace.
pub fn init_tracer() -> (r: TracerSettings)
    ensures
        r.service_name@ == "identity-tp"@,
        r.collector_endpoint@ == "127.0.0.1:6831"@,
        r.version_tag@ == "1.2.3"@,
        r.always_sample,
{
    TracerSettings {
        service_name: "identity-tp".to_owned(),
        collector_endpoint: "127.0.0.1:6831".to_owned(),
        version_tag: "1.2.3".to_owned(),
        always_sample: true,
    }
}

} // verus!
