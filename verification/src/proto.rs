//! The messages that coordinator and workers exchange, as plain values.
//!
//! Rates are exact ratios, measured rates whole requests per second, and the
//! onset of rate limiting thousandths of a request per second.

use vstd::prelude::*;

use crate::connection::{Health, SampledResponse};
use crate::rate::Rate;
use crate::tally::Counts;

verus! {

/// Request methods a target can be benchmarked with.
#[derive(Debug, Clone, Copy, PartialEq, Eq, Structural)]
pub enum HttpMethod {
    Get,
    Post,
    Put,
    Patch,
    Delete,
    Head,
}

impl HttpMethod {
    /// The method's number in a message.
    pub open spec fn number(self) -> i32 {
        match self {
            HttpMethod::Get => 0,
            HttpMethod::Post => 1,
            HttpMethod::Put => 2,
            HttpMethod::Patch => 3,
            HttpMethod::Delete => 4,
            HttpMethod::Head => 5,
        }
    }

    pub fn to_i32(&self) -> (n: i32)
        ensures
            n == self.number(),
    {
        match self {
            HttpMethod::Get => 0,
            HttpMethod::Post => 1,
            HttpMethod::Put => 2,
            HttpMethod::Patch => 3,
            HttpMethod::Delete => 4,
            HttpMethod::Head => 5,
        }
    }

    /// The method with this number, if there is one.
    pub fn from_i32(n: i32) -> (r: Option<HttpMethod>)
        ensures
            r matches Some(m) ==> m.number() == n,
            r is None <==> !(0 <= n <= 5),
    {
        match n {
            0 => Some(HttpMethod::Get),
            1 => Some(HttpMethod::Post),
            2 => Some(HttpMethod::Put),
            3 => Some(HttpMethod::Patch),
            4 => Some(HttpMethod::Delete),
            5 => Some(HttpMethod::Head),
            _ => None,
        }
    }
}

/// What a worker is told to do on a rate-limit response.
#[derive(Debug, Clone, Copy, PartialEq, Eq, Structural)]
pub enum RateLimitAction {
    RlContinue,
    RlBackoff,
    RlAbort,
}

impl RateLimitAction {
    /// The action's number in a message.
    pub open spec fn number(self) -> i32 {
        match self {
            RateLimitAction::RlContinue => 0,
            RateLimitAction::RlBackoff => 1,
            RateLimitAction::RlAbort => 2,
        }
    }

    pub fn to_i32(&self) -> (n: i32)
        ensures
            n == self.number(),
    {
        match self {
            RateLimitAction::RlContinue => 0,
            RateLimitAction::RlBackoff => 1,
            RateLimitAction::RlAbort => 2,
        }
    }

    /// The action with this number, if there is one.
    pub fn from_i32(n: i32) -> (r: Option<RateLimitAction>)
        ensures
            r matches Some(a) ==> a.number() == n,
            r is None <==> !(0 <= n <= 2),
    {
        match n {
            0 => Some(RateLimitAction::RlContinue),
            1 => Some(RateLimitAction::RlBackoff),
            2 => Some(RateLimitAction::RlAbort),
            _ => None,
        }
    }
}

/// The number of the open load model in a message.
pub const LOAD_MODEL_OPEN: i32 = 0;

/// The target of an assignment.
#[derive(Debug, Clone)]
pub struct Target {
    pub url: String,
    pub method: i32,
    pub headers: Vec<(String, String)>,
    pub body: Vec<u8>,
    pub timeout_ms: i32,
    pub verify_tls: bool,
}

/// The inline assertions of an assignment.
#[derive(Debug, Clone)]
pub struct AssertSpec {
    pub max_latency_us: Option<i64>,
    pub min_body_bytes: Option<i32>,
    pub max_body_bytes: Option<i32>,
    pub content_type: Option<String>,
    pub expected_status: Vec<i32>,
    pub sample_every_n: i32,
    pub ship_bodies: bool,
    pub max_sampled_body_bytes: i32,
}

/// The rate-limit policy of an assignment.
#[derive(Debug, Clone, Copy, PartialEq, Eq, Structural)]
pub struct RateLimitPolicy {
    pub action: i32,
    pub max_backoff_ms: i32,
    pub record_onset: bool,
}

/// One worker's slice of a run.
#[derive(Debug, Clone)]
pub struct Assignment {
    pub run_id: String,
    pub worker_id: String,
    pub contract_version: String,
    pub target: Option<Target>,
    pub throughput: Rate,
    pub catch_up: Rate,
    pub load_model: i32,
    pub connections: i32,
    pub keepalive: bool,
    pub epoch_unix_us: i64,
    pub duration_s: i32,
    pub warmup_s: i32,
    pub assertions: Option<AssertSpec>,
    pub rate_limit_policy: Option<RateLimitPolicy>,
}

/// The counts of one bucket of the load axis.
#[derive(Debug, Clone, Copy, PartialEq, Eq, Structural)]
pub struct RpsBucket {
    pub rps_lo: u64,
    pub rps_hi: u64,
    pub total: u64,
    pub pass: u64,
    pub fail_transport: u64,
    pub fail_status: u64,
    pub fail_latency: u64,
    pub fail_size: u64,
    pub fail_content_type: u64,
    pub rate_limited: u64,
    pub timeout: u64,
}

impl RpsBucket {
    /// What the bucket counts by verdict.
    pub open spec fn counts(self) -> Counts {
        Counts {
            total: self.total as int,
            pass: self.pass as int,
            fail_status: self.fail_status as int,
            fail_latency: self.fail_latency as int,
            fail_size: self.fail_size as int,
            fail_content_type: self.fail_content_type as int,
            rate_limited: self.rate_limited as int,
        }
    }
}

/// What a worker learned about the target's rate limit.
#[derive(Debug, Clone, Copy, PartialEq, Eq, Structural)]
pub struct RateLimit {
    pub count_this_tick: u64,
    pub first_429_mrps: Option<u64>,
    pub last_retry_after_ms: Option<u64>,
    pub backoff_us_total: u64,
}

/// One worker's report of one tick.
#[derive(Debug, Clone)]
pub struct Partial {
    pub worker_id: String,
    pub tick: u64,
    /// Set on the report that closes the stream.
    pub is_final: bool,
    pub corrected_hist: Vec<u8>,
    pub uncorrected_hist: Vec<u8>,
    pub ttfb_hist: Vec<u8>,
    pub this_tick_corrected: Vec<u8>,
    pub buckets: Vec<RpsBucket>,
    pub offered_rps: u64,
    pub achieved_rps: u64,
    pub sched_slip_us: u64,
    pub client_saturated: bool,
    pub in_flight: u64,
    pub conn_errors: u64,
    pub timeouts: u64,
    pub rate_limit: Option<RateLimit>,
    pub bytes_sent: u64,
    pub bytes_recv: u64,
    pub sampled: Vec<SampledResponse>,
}

impl Partial {
    /// All buckets of the report together.
    pub open spec fn counts(self) -> Counts {
        Counts::sum(Seq::new(self.buckets@.len(), |i: int| self.buckets@[i].counts()))
    }

    /// What the worker says of itself.
    pub open spec fn health(self) -> Health {
        Health {
            sched_slip_us: self.sched_slip_us,
            client_saturated: self.client_saturated,
            conn_errors: self.conn_errors,
            timeouts: self.timeouts,
        }
    }

    /// The onset that the report carries, if any.
    pub open spec fn onset(self) -> Option<u64> {
        match self.rate_limit {
            Some(rl) => rl.first_429_mrps,
            None => None,
        }
    }
}

/// A worker has started its slice.
#[derive(Debug, Clone, Copy, PartialEq, Eq, Structural)]
pub struct Started {
    pub actual_start_unix_us: i64,
    pub skew_us: i64,
}

/// What a worker sends while it runs a slice.
#[derive(Debug, Clone)]
pub enum WorkerEvent {
    Started(Started),
    Partial(Partial),
}

/// How a worker introduces itself.
#[derive(Debug, Clone)]
pub struct WorkerInfo {
    pub worker_id: String,
    pub address: String,
    pub contract_version: String,
    pub max_rps: u32,
}

/// The answer to a worker's introduction.
#[derive(Debug, Clone)]
pub struct RegisterAck {
    pub accepted: bool,
    pub reason: String,
}

/// Tells a worker to stop a run.
#[derive(Debug, Clone)]
pub struct AbortRequest {
    pub run_id: String,
    /// Empty for the run on whatever worker gets the request.
    pub worker_id: String,
    pub reason: String,
}

/// The answer to an abort.
#[derive(Debug, Clone, Copy, PartialEq, Eq, Structural)]
pub struct AbortAck {
    pub accepted: bool,
}

} // verus!
