pub mod bytes;
pub mod grid;
pub mod json;
pub mod runtime;
pub mod server;
pub mod spelling;
pub mod tensor;
pub mod text;
pub mod tokenizer;
