//! Pricing of a basket of named, quantified items for one location.
//!
//! Each item has a strategy, given by a table. A strategy says which orders
//! to ask the market-data source for and what price to make of the answers.
//! The library decides what is asked and what the answers come to; sending
//! the requests and keeping the answers in a store is its caller's part.
//!
//! Numbers are IEEE 754 binary64 values, carried by their bit patterns. The
//! library orders them but does no arithmetic on them: a price is an
//! [`amount::Amount`], the formula by which the caller works it out.

pub mod amount;
pub mod batch;
pub mod binary64;
pub mod cache;
pub mod error;
pub mod hex;
pub mod input;
pub mod item;
pub mod laws;
pub mod market;
pub mod multi_item;
pub mod names;
pub mod pricing;
pub mod render;
pub mod response;
pub mod single_item;
pub mod sorting;
pub mod sub_items;
pub mod table;

pub use crate::batch::response_from_items;
pub use crate::cache::response_from_hash;
pub use crate::error::Error;
pub use crate::input::ParsedInput;
pub use crate::response::Response;
