//! Statistics-based block pruning for `ORDER BY <column> LIMIT n` queries,
//! together with the role-identity data model that the surrounding system
//! stores alongside table metadata.
//!
//! The pruner decides, from per-block summary statistics alone (minimum,
//! maximum and null count of the sort column), which storage blocks can
//! possibly contribute rows to a top-n result, and discards the rest before
//! any row data is read.

pub mod block_meta;
pub mod role_info;
pub mod schema;
pub mod topn_pruner;
