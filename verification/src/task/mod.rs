//! The task system: programs (processes) and their threads, the pool that
//! holds them and the scheduler that picks the next thread to run.

pub mod resource;
pub mod task_info;
pub mod process;
pub mod thread;
pub mod info;
pub mod task_pool;
pub mod lifecycle;
pub mod scheduler;
pub mod task_manager;
pub mod require;
