pub mod agent;
pub mod config;
pub mod fs;
pub mod llm;
pub mod order;
pub mod path;
pub mod replace;
pub mod sandbox;
pub mod text;
pub mod tools;
