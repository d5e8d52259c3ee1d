pub mod common;
pub mod config;
pub mod models;
pub mod mysql;
pub mod pool_manager;
pub mod rpc;
pub mod text;
