pub mod chunk;
pub mod codec;
pub mod hash;
pub mod jammstore;
