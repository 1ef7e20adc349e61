//! The tools that the model may call during a review.
pub mod code_search;
pub mod file_find;
pub mod file_read;
pub mod registry;
pub mod review;
pub mod schema;
pub mod submit_finding;
pub mod task_done;
