pub mod broker;
pub mod connection;
pub mod frame;
