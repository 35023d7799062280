//! Verified H.264 Annex-B framing and the pipeline decisions of a small
//! WebRTC screen publisher.

pub mod h264;
pub mod pipeline;
pub mod web;
pub mod webrtc_sender;
