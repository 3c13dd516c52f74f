//! Task stacks.

pub mod task_stack;

pub use task_stack::{StackArea, TaskStack};
