//! Datadog series records from provider-neutral metrics.
//!
//! A batch of metrics goes in; what comes out is the list of series records
//! that the batch stands for, ready to be written as JSON and posted.
//!
//! - `metric` holds what comes in, `series` what goes out, and `translate`
//!   the rules that lead from the one to the other.
//! - `summary` reduces weighted samples to their statistics; `order`, `rank`
//!   and `weights` are its parts.
//! - `tags` and `text` write tags, names and numbers.
//! - `tracker` keeps the time of the last flush, and `sink` puts a
//!   configuration, an address and a tracker together.
//! - `double` is how numbers are held: this library does no floating-point
//!   arithmetic, and where a record owes a number that takes some, the record
//!   says which.
//! - `outside` holds the calls into other crates.

pub mod double;
pub mod metric;
pub mod order;
pub mod outside;
pub mod rank;
pub mod series;
pub mod sink;
pub mod summary;
pub mod tags;
pub mod text;
pub mod tracker;
pub mod translate;
pub mod weights;
