//! Heap memory: pools of equal blocks, and the heap of a task made of them.

pub mod heap_pool;
pub mod task_heap;
