pub mod buffer;
pub mod reversed_vec;
