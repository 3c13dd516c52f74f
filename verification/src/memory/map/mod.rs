//! Sv39 page-table mapping, driven through the SATP register value.

pub mod page_table;
pub mod pagebit;
pub mod satp;

pub use satp::SATP;
