pub mod command;
pub mod error;
pub mod laws;
pub mod report;
pub mod rewrite;
pub mod scan;
pub mod stats;
pub mod text;
