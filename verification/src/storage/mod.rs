pub mod components;
pub mod file;
pub mod storage;
pub mod obs;
pub mod ops;
