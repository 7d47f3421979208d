//! An in-memory task store with a query engine and a bulk-import pipeline.

pub mod handlers;
pub mod import;
pub mod multipart;
pub mod query;
pub mod repository;
pub mod stats;
pub mod store;
pub mod tags;
pub mod task;
pub mod text;
