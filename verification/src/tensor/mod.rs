//! Tensors: shapes, element types, byte storage and packed bit words.
pub mod binary;
pub mod bits;
pub mod init;
pub mod meant;
pub mod ops;
pub mod pnword;
pub mod rows;
pub mod shape;
pub mod simd;
pub mod tensor;
pub mod types;
pub mod view;
