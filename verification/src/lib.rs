//! TisuOS kernel logic: memory management, task bookkeeping and virtio
//! device helpers, stated over plain values and verified with Verus.
#![allow(unused_imports)]

use vstd::prelude::*;

pub mod memory;
pub mod rtc;
pub mod sync;
pub mod task;
pub mod uart;
pub mod virtio;

