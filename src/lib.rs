//! Storage and leasing protocol of a durable job queue: the job record,
//! the atomic checkout, lease resolution, cancellation and the dead-letter
//! transition, stated over a model of the live queue and the dead-letter store.

pub mod laws;
pub mod record;
pub mod select;
pub mod state;
