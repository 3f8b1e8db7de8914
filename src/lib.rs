//! Echo-based stress testing of a publish/subscribe fabric: subject naming, the echo payload
//! codec, batch flood bookkeeping, throughput probing and rate statistics.

use vstd::prelude::*;

pub mod codec;
pub mod config;
pub mod message;
pub mod results;
pub mod stats;
pub mod subjects;

verus! {

} // verus!
