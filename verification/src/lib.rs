//! Versioning of DAW projects: semantic indexes of exported projects, the
//! change lists between two of them, three-way conflict detection, and the
//! decisions of the git-backed snapshot store.

pub mod model;
pub mod text;
pub mod diff;
pub mod conflicts;
pub mod git;
pub mod workspace;
pub mod xml;
pub mod dawproject;
pub mod index;
pub mod api;
