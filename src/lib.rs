//! Storage and orchestration core of a search engine: a trailer-anchored
//! posting-list store with its builder, and the index management and update
//! lifecycle rules around it.

pub mod codec;
pub mod data;
pub mod doc_indexes;
pub mod index_controller;
pub mod updates;
