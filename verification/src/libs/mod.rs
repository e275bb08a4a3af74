pub mod connect;
pub mod text;
pub mod varint;
pub mod zlib;
