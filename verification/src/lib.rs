//! Verified core of a local semantic search engine: the key and vector
//! obfuscation layer, the capture and search decisions, the import chunker and
//! the training schedule.

pub mod adapter;
pub mod capture;
pub mod crypto;
pub mod importer;
pub mod index;
pub mod search;
pub mod text;
pub mod training;
