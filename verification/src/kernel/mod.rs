//! A geotechnical project: CPTs and BRO borehole documents kept by
//! identifier, imported from their source formats.

pub mod convert;
pub mod project;
pub mod copy;
pub mod project_file;
