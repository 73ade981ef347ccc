//! A logic-less template engine: sources with `{{ ... }}` tags are
//! compiled into a fragment list with a parallel section-skip table,
//! and rendered against a JSON-shaped data value, with scope-chained
//! variable lookup, HTML escaping by default, and partials served by
//! a loader.

pub mod errors;
pub mod fileloader;
pub mod laws;
pub mod loader;
pub mod output;
pub mod parse;
pub mod render;
pub mod resolve;
pub mod template;
pub mod value;

pub use errors::MoostacheError;
pub use fileloader::FileLoader;
pub use loader::{HashMapLoader, LoaderConfig};
pub use render::TemplateLoader;
pub use template::{Fragment, SectionSkip, Template};
pub use value::Value;
