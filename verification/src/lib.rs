pub mod builder;
pub mod datetime;
pub mod files;
pub mod format;
pub mod render;
pub mod size;
pub mod stats;
pub mod strutil;
pub mod tree;
