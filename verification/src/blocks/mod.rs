//! The built-in blocks: what each one is, and what it is built of.

pub mod audio_bridge;
pub mod bridge_laws;
pub mod capture_laws;
pub mod card_laws;
pub mod codec_report;
pub mod compositor_laws;
pub mod contents;
pub mod decklink;
pub mod decode_chain;
pub mod definition;
pub mod definition_laws;
pub mod devicesrc;
pub mod discovery_laws;
pub mod effect_laws;
pub mod glcompositor;
pub mod html_input;
pub mod liveaudiorouter;
pub mod mediaplayer;
pub mod mixer;
pub mod page_source_laws;
pub mod plan;
pub mod player_laws;
pub mod publish_laws;
pub mod refusal;
pub mod routing;
pub mod routing_laws;
pub mod rtmp;
pub mod time_offset;
pub mod tsdemux_anchor;
pub mod vision_mixer;
