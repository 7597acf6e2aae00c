//! The points at which the dispatch loop reports to an observer, so that
//! spans and metrics can be recorded without the core knowing the exporter.

use vstd::prelude::*;
use crate::dispatch::{copy_bytes, ResponseEnvelope, ResponseStatus};

verus! {

/// What an observer is told.
#[derive(Debug)]
pub enum DiagnosticEvent {
    LinkEstablished,
    RegistrationAcknowledged { handler: usize },
    RequestReceived { correlation_id: Vec<u8> },
    RequestCompleted { correlation_id: Vec<u8>, status: ResponseStatus, elapsed_ms: u64 },
}

/// An observer of the dispatch loop. It is called synchronously and must not
/// block; the loop does not look at what it does.
pub trait DiagnosticsHook {
    fn on_event(&mut self, event: &DiagnosticEvent);
}

/// The event that reports a response sent after `elapsed_ms` milliseconds.
pub fn completed_event(resp: &ResponseEnvelope, elapsed_ms: u64) -> (r: DiagnosticEvent)
    ensures
        r matches DiagnosticEvent::RequestCompleted { correlation_id, status, elapsed_ms: e }
            && correlation_id@ == resp.correlation_id@ && status == resp.status && e
            == elapsed_ms,
{
    DiagnosticEvent::RequestCompleted {
        correlation_id: copy_bytes(&resp.correlation_id),
        status: resp.status,
        elapsed_ms,
    }
}

} // verus!
