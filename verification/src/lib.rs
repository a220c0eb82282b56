//! A repository of text templates that exist in several language variants.
//!
//! Templates are staged in a builder together with groups that bundle them, the builder
//! checks that every group member points at a staged template, and a build compiles every
//! variant and yields a repository that renders one template or a whole group, falling
//! back to a second language where the first has no variant.
pub mod compile;
pub mod engine;
pub mod laws;
pub mod naming;
pub mod string_map;
pub mod template;
pub mod terarium;
pub mod terrarist;

pub use crate::compile::CompileStop;
pub use crate::string_map::StringMap;
pub use crate::template::{Content, Template};
pub use crate::terarium::{
    TemplateGroupBuilder, Terarium, TerariumBuilder, TerariumBuilderError, TerariumError,
};
pub use crate::terrarist::{Terrarist, TerraristBuilder, TerraristBuilderError};
