pub mod buffer;
pub mod catalog;
pub mod common;
pub mod database;
pub mod error;
pub mod execution;
pub mod expression;
pub mod optimizer;
pub mod practice;
pub mod storage;
pub mod transaction;
