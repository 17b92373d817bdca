//! A small relational database engine and a library-management model,
//! with each component's behaviour stated as a contract and proved.
pub mod ast;
pub mod bytes;
pub mod catalog;
pub mod database;
pub mod engine;
pub mod error;
pub mod executor;
pub mod lexer;
pub mod memory;
pub mod memory_v2;
pub mod models;
pub mod name_map;
pub mod parser;
pub mod planner;
pub mod services;
pub mod text;
pub mod value;
