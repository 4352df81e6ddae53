//! Couplings between LEGO-style parts and the resolution of LDraw part
//! dependencies, with their behaviour stated as Verus contracts.

pub mod text;
pub mod couplings;
pub mod alias;
pub mod alias_map;
pub mod document;
pub mod error;
pub mod library;
pub mod loader;
pub mod paths;
pub mod report;
pub mod patterns;
pub mod connection;
pub mod constraints;
pub mod detection;
