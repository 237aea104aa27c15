//! Generation of Maven POM files from a TOML project description: a project
//! is read from the table of a `pom.toml` and written as the XML of a
//! `pom.xml`.
use vstd::prelude::*;

pub mod text;
pub mod toml_model;
pub mod xmlwriter;
pub mod project;
pub mod parse;
pub mod laws;
pub mod cli;
pub mod pom_laws;

pub use crate::project::{Dependency, Plugin, Project, Properties, Repository};
pub use crate::toml_model::{TomlDate, TomlDatetime, TomlOffset, TomlTable, TomlTime, TomlValue};
pub use crate::xmlwriter::{XmlWrite, XmlWriter};

verus! {
} // verus!
