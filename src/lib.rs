//! A two-domain delayed-callback scheduler over a hierarchical timing wheel.
//!
//! One domain follows wall-clock milliseconds, the other advances only when its
//! host drives a tick. Handles carry the tag of the domain that minted them, so a
//! single cancel call can be routed to the right wheel.
pub mod handles;
pub mod wheel;
pub mod domain;
pub mod scheduler;
pub mod lifecycle;
