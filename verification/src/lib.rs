//! Planar (channel-by-channel) sample buffers over one flat region.
//!
//! Every buffer keeps its samples in a single contiguous region in which
//! channel `c` occupies the `frames` samples starting at index `c * frames`.
//! The buffers hand out one slice per channel; the contracts state which part
//! of the region each slice is, and how the region reads once mutable slices
//! have been written through.

pub mod arrays;
pub mod const_buffer;
pub mod const_buffer_ref;
pub mod instance_buffer;
pub mod planar;
pub mod slicing;
pub mod stacked;
pub mod var_buffer;
pub mod var_buffer_ref;

pub use const_buffer::ChannelBuffer;
pub use const_buffer_ref::{ChannelBufferRef, ChannelBufferRefMut};
pub use instance_buffer::InstanceChannelBuffer;
pub use var_buffer::VarChannelBuffer;
pub use var_buffer_ref::{VarChannelBufferRef, VarChannelBufferRefMut};
