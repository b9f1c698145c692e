//! Extracts the addresses of the transactions of an EVM chain between two times.
pub mod attempts;
pub mod batch;
pub mod checkpoint;
pub mod endpoints;
pub mod json;
pub mod number;
pub mod options;
pub mod output;
pub mod part;
pub mod plan;
pub mod range;
pub mod request;
pub mod rpc;
pub mod search;
pub mod text;
