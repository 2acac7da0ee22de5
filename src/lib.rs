//! Release-note synthesis for a version-controlled project: semantic versions,
//! conventional-commit classification, and the text of each release-note section.

pub mod classify;
pub mod notes;
pub mod remote;
pub mod tag;
pub mod text;
pub mod version;
