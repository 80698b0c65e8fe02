//! The vision mixer: several video inputs, one of them on programme and one on
//! preview, with a multiview of them all.

pub mod builder;
pub mod connected_cpu;
pub mod connected_gpu;
pub mod connected_links;
pub mod cpu;
pub mod geometry;
pub mod gpu;
pub mod layout;
pub mod links;
pub mod mixer_laws;
pub mod named_cpu;
pub mod named_gpu;
pub mod names;
pub mod pad_order;
pub mod pads;
pub mod params;
pub mod pgm_overlay;
pub mod picture_laws;
pub mod pipeline_laws;
