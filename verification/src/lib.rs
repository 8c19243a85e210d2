//! Seedpass: deterministic credentials from an encrypted seed and public recipes.
pub mod accounts;
pub mod codec;
pub mod commands;
pub mod crypto;
pub mod derive;
pub mod lifecycle;
pub mod maintenance;
pub mod model;
pub mod laws;
pub mod text;
pub mod profile;
pub mod storage;
pub mod primitives;
pub mod validate;
pub mod yaml;
