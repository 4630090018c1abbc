//! GEF (Geotechnical Exchange Format) reading.

pub mod columns;
pub mod header;
pub mod data;
