//! The services that the review pipeline is made of.
pub mod json_extractor;
pub mod file_reader;
pub mod prompt_builder;
pub mod sanitize;
pub mod diff_service;
pub mod review_filter;
pub mod github_service;
pub mod relocation;
