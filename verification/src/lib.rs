//! An unordered batch multiplexer: a caller pushes a batch of independent
//! operations, each of which eventually finishes with a success or an error,
//! and then drains the results one at a time in completion order (determined
//! by each operation's latency, never by submission order).  A failing
//! operation is yielded through the same channel as a succeeding one and
//! never disturbs the rest of the batch.
#![verifier::loop_isolation(false)]

pub mod batch;
pub mod drain;
pub mod laws;
