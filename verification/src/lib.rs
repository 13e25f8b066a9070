//! Determines the minimum Java runtime release required by compiled class
//! files, whether given directly or packed inside a jar archive.

pub mod archive;
pub mod pipeline;
pub mod text;
pub mod version;
