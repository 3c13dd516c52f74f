//! Virtual IO devices: queues, headers, input decoding and buffers.

pub mod block;
pub mod buffer;
pub mod block_device;
pub mod device;
pub mod gpu;
pub mod header;
pub mod input_buffer;
pub mod ip;
pub mod keyboard;
pub mod queue;
