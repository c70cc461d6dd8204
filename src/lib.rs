//! A `cat`-like line transformer: resolves flag tokens into a configuration
//! and renders the lines of one or more sources with optional numbering,
//! blank-line squeezing, end markers and tab visualization.
pub mod config;
pub mod lines;
pub mod render;
pub mod transform;
pub mod arguments;
pub mod laws;

pub use arguments::Arguments;
pub use transform::cat;
