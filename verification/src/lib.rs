//! Decision logic of a Vulkan ubershader UI renderer: queue-family and
//! physical-device selection, memory-type lookup, swapchain parameter
//! choices, per-frame sequencing, and the packing of rasterised glyphs into a
//! single-channel font atlas.
pub mod device;
pub mod font_atlas;
pub mod font_source;
pub mod frame;
pub mod memory;
pub mod queue_family;
pub mod swapchain;

