//! Write side of a self-describing, length-framed columnar interchange stream.
//!
//! A stream is a sequence of framed messages: one schema message, then for
//! each chunk of columns zero or more dictionary messages followed by one
//! data message, and finally a four-byte end-of-stream marker. The framing,
//! the dictionary bookkeeping and the writer's state machine are verified;
//! every byte that reaches the sink is pinned down by the contracts.

pub mod chunk;
pub mod dict;
pub mod encode;
pub mod error;
pub mod fields;
pub mod laws;
pub mod stream;
pub mod wire;
