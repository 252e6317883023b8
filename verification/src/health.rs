//! The health endpoint.

use vstd::prelude::*;
use vstd::string::*;

use crate::cli::LogLevel;
use crate::observe::{snapshot, Metrics};

verus! {

/// An answer of the health endpoint.
#[derive(Debug)]
pub enum HealthResponse {
    /// All is well.
    Healthy,
    /// All is well, with the counters as JSON.
    OkDetail(String),
    /// The gateway is not ready yet.
    NotReady,
}

pub enum HealthView {
    Healthy,
    OkDetail(Seq<char>),
    NotReady,
}

impl View for HealthResponse {
    type V = HealthView;

    open spec fn view(&self) -> HealthView {
        match self {
            HealthResponse::Healthy => HealthView::Healthy,
            HealthResponse::OkDetail(s) => HealthView::OkDetail(s@),
            HealthResponse::NotReady => HealthView::NotReady,
        }
    }
}

impl HealthView {
    pub open spec fn status(self) -> u16 {
        if self is NotReady {
            503
        } else {
            200
        }
    }

    pub open spec fn content_type(self) -> Seq<char> {
        if self is OkDetail {
            "application/json"@
        } else {
            "text/plain"@
        }
    }

    pub open spec fn body(self) -> Seq<char> {
        match self {
            HealthView::Healthy => "ok"@,
            HealthView::OkDetail(json) => json,
            HealthView::NotReady => "Service Unavailable"@,
        }
    }
}

impl HealthResponse {
    pub fn status_code(&self) -> (r: u16)
        ensures
            r == self@.status(),
    {
        match self {
            HealthResponse::Healthy => 200,
            HealthResponse::OkDetail(_) => 200,
            HealthResponse::NotReady => 503,
        }
    }

    pub fn content_type(&self) -> (r: &'static str)
        ensures
            r@ == self@.content_type(),
    {
        match self {
            HealthResponse::Healthy => "text/plain",
            HealthResponse::OkDetail(_) => "application/json",
            HealthResponse::NotReady => "text/plain",
        }
    }

    pub fn body(&self) -> (r: &str)
        ensures
            r@ == self@.body(),
    {
        match self {
            HealthResponse::Healthy => "ok",
            HealthResponse::OkDetail(json) => json.as_str(),
            HealthResponse::NotReady => "Service Unavailable",
        }
    }
}

/// The answer: not ready until the gateway says so; the counters where they are asked
/// for and debugging is on.
pub open spec fn health_of(m: Metrics, detail: bool, level: LogLevel) -> HealthView {
    if !m.ready {
        HealthView::NotReady
    } else if detail && level == LogLevel::Debug {
        HealthView::OkDetail(snapshot(m))
    } else {
        HealthView::Healthy
    }
}

/// Answers a request to the health endpoint.
pub fn check_health(metrics: &Metrics, detail: bool, log_level: LogLevel) -> (r: HealthResponse)
    ensures
        r@ == health_of(*metrics, detail, log_level),
{
    if !metrics.is_ready() {
        return HealthResponse::NotReady;
    }
    if detail && log_level == LogLevel::Debug {
        HealthResponse::OkDetail(metrics.snapshot_json())
    } else {
        HealthResponse::Healthy
    }
}

/// The endpoint answers 200 exactly when the gateway is ready.
pub proof fn law_healthy_iff_ready(m: Metrics, detail: bool, level: LogLevel)
    ensures
        health_of(m, detail, level).status() == 200 <==> m.ready,
        health_of(m, detail, level).status() == 503 <==> !m.ready,
{
}

/// The words of a check: all is well, or not yet, and the counters only where the log is
/// detailed and they were asked for.
pub proof fn law_health_is_told(m: Metrics, detail: bool, level: LogLevel)
    ensures
        ({
            let h = health_of(m, detail, level);
            &&& !m.ready ==> h.status() == 503 && h.body() == "Service Unavailable"@
                && h.content_type() == "text/plain"@
            &&& m.ready && (!detail || level != LogLevel::Debug) ==> h.status() == 200 && h.body()
                == "ok"@ && h.content_type() == "text/plain"@
            &&& m.ready && detail && level == LogLevel::Debug ==> h.status() == 200 && h.body()
                == snapshot(m) && h.content_type() == "application/json"@
        }),
{
}

} // verus!
