//! Schema correction and extraction for a REST API description, together with
//! the plain configuration and transfer types of the client around it.
pub mod bulletins;
pub mod config;
pub mod controller;
pub mod error;
pub mod json;
pub mod patches;
pub mod pipeline;
pub mod serde_tree;
pub mod string_maps;
pub mod targeted;
pub mod types;
