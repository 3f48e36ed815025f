pub mod config;
pub mod inside;
pub mod lines;
pub mod pathfilter;
pub mod pattern;
pub mod search;
