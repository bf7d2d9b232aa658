//! A timed buy-then-sell engine for a spot exchange: decimal arithmetic,
//! price and quantity quantization, request signing, and the decisions of the
//! trigger, burst and position state machines.
pub mod decimal;
pub mod quantize;
pub mod sign;
pub mod request;
pub mod schedule;
pub mod engine;
