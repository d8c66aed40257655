pub mod primitives;
pub mod sign;
pub mod symm_enc;
pub mod device;
