pub mod cli;
pub mod compression;
pub mod config;
pub mod hashing;
pub mod json;
pub mod laws;
pub mod outcomes;
pub mod network;
pub mod package;
pub mod resolver;
pub mod strmap;
pub mod text;
pub mod workspace;
pub mod engine;
