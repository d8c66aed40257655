pub mod block_header;
pub mod block;
pub mod header;
pub mod index;
