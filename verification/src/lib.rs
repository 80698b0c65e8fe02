//! Verified core of a live-media backend: the rules behind its HTTP endpoints
//! and the plans of its built-in processing blocks.

pub mod basic_laws;
pub mod blocks;
pub mod devtools;
pub mod endpoints;
pub mod flow;
pub mod gst_launch;
pub mod http;
pub mod ids;
pub mod json;
pub mod launch_laws;
pub mod media;
pub mod media_laws;
pub mod properties;
pub mod sdp;
pub mod sdp_laws;
pub mod sequences;
pub mod text;
pub mod whep;
pub mod whep_laws;
pub mod whip;
pub mod whip_laws;
