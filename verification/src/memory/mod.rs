//! Memory management: physical pages, bitmaps, page tables, heap pools,
//! program areas and task stacks.

pub mod allocator;
pub mod bitmap;
pub mod block;
pub mod config;
pub mod heap_memory;
pub mod page;
pub mod map;
pub mod page_table;
pub mod program_memory;
pub mod require;
pub mod stack_memory;
