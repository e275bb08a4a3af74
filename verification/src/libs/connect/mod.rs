pub mod connect;
pub mod package;
pub mod packet;
