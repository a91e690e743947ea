//! A depth-bounded order book fed by a snapshot and a stream of diffs.
//!
//! The two ladders (bids and asks) are kept ordered by the text of their
//! prices; every mutation is specified over a mathematical ladder, a sequence
//! of `(price, quantity)` pairs in strictly increasing price order.

pub mod price;
pub mod quantity;
pub mod ladder;
pub mod side;
pub mod message;
pub mod book;
pub mod laws;
pub mod publish;
pub mod event;
pub mod json;
pub mod decode;
