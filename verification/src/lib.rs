pub mod archive;
pub mod counts;
pub mod error;
pub mod files;
pub mod filters;
pub mod forge;
pub mod jobs;
pub mod locs;
pub mod platform;
pub mod scan;
pub mod text;
pub mod tree;
