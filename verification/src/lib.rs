//! Verified core of the open geotechnical toolchain: CPT parsing (GEF and
//! BRO XML), Robertson classification, layer detection, writers, BRO
//! borehole documents and an in-memory geotechnical project.

pub mod baken;
pub mod text;
pub mod calendar;
pub mod number;
pub mod keyed;
pub mod xml;
pub mod bro;
pub mod cpt;
pub mod kernel;
pub mod klic;
