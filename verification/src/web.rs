//! The values that the HTTP surface exchanges: the health report and the
//! session offer and answer.
use vstd::prelude::*;

use crate::pipeline::PipelineHealth;

verus! {

/// Status that every health report carries.
pub const HEALTH_STATUS_OK: &'static str = "ok";

/// Address that the server listens on when `POC_SERVER_ADDR` is unset.
pub const DEFAULT_SERVER_ADDR: &'static str = "0.0.0.0:4060";

/// The health report served at `/health`.
pub struct HealthResponse {
    pub status: &'static str,
    pub source: &'static str,
    pub pipeline_ready: bool,
    pub raw_frames: u64,
    pub encode_attempts: u64,
    pub encoded_frames: u64,
    pub dropped_frames: u64,
    pub last_raw_frame_at_ms: u64,
    pub last_encode_attempt_at_ms: u64,
    pub last_encoded_at_ms: u64,
    pub last_error: Option<String>,
}

/// The browser's SDP offer posted to `/session`.
pub struct SessionOffer {
    pub sdp: String,
}

/// The server's SDP answer to an offer.
pub struct SessionAnswer {
    pub sdp: String,
}

impl HealthResponse {
    /// The report of a pipeline's health: status `ok` and every counter and
    /// field of the pipeline as it is.
    pub fn from_health(health: PipelineHealth) -> (r: Self)
        ensures
            r.status@ == HEALTH_STATUS_OK@,
            r.source == health.source,
            r.pipeline_ready == health.pipeline_ready,
            r.raw_frames == health.raw_frames,
            r.encode_attempts == health.encode_attempts,
            r.encoded_frames == health.encoded_frames,
            r.dropped_frames == health.dropped_frames,
            r.last_raw_frame_at_ms == health.last_raw_frame_at_ms,
            r.last_encode_attempt_at_ms == health.last_encode_attempt_at_ms,
            r.last_encoded_at_ms == health.last_encoded_at_ms,
            r.last_error == health.last_error,
    {
        HealthResponse {
            status: HEALTH_STATUS_OK,
            source: health.source,
            pipeline_ready: health.pipeline_ready,
            raw_frames: health.raw_frames,
            encode_attempts: health.encode_attempts,
            encoded_frames: health.encoded_frames,
            dropped_frames: health.dropped_frames,
            last_raw_frame_at_ms: health.last_raw_frame_at_ms,
            last_encode_attempt_at_ms: health.last_encode_attempt_at_ms,
            last_encoded_at_ms: health.last_encoded_at_ms,
            last_error: health.last_error,
        }
    }
}

/// The text of the address to listen on: `POC_SERVER_ADDR` when set, else
/// `0.0.0.0:4060`.
pub fn server_addr_text(value: Option<String>) -> (addr: String)
    ensures
        addr@ == match value {
            Some(text) => text@,
            None => DEFAULT_SERVER_ADDR@,
        },
{
    match value {
        Some(text) => text,
        None => DEFAULT_SERVER_ADDR.to_owned(),
    }
}

} // verus!
