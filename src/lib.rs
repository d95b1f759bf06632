//! A key/value store carried over DNS queries: the payload codec, the upload
//! encoder and reassembler, and the paginated download.
pub mod codec;
pub mod upload;
pub mod store;
pub mod server;
pub mod download;
pub mod protocol;
pub mod dns;
pub mod retry;
