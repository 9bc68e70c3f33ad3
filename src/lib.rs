//! Clone-traffic bookkeeping: decoding of daily clone counters reported by a
//! hosting service and their idempotent, monotone merge into a store keyed by
//! repository and day.

pub mod fetch;
pub mod laws;
pub mod run;
pub mod sample;
pub mod schema;
pub mod store;
