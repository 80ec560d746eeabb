pub mod application;
pub mod domain;
pub mod errors;
pub mod index;
pub mod laws;
pub mod repository;
pub mod search;
pub mod stats;
pub mod tables;
pub mod text;
pub mod value;
