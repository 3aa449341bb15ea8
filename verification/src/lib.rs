//! Read and write sets of the transactions of an Ethereum block, worked out from
//! the pre-state traces that a node's debug API returns, and the documents that
//! the block downloader saves.
pub mod json;
pub mod text;
pub mod hexcodec;
pub mod rwsets;
pub mod keys;
pub mod gas;
pub mod document;
pub mod rpc;
pub mod stats;
pub mod keylaws;
pub mod doclaws;
