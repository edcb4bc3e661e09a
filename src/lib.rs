//! Intermediate symbol representation: a version-agnostic model of an
//! operating system kernel's symbols and types, built from PDB type records
//! or DWARF debugging information, and queried for sizes, field offsets,
//! bit-fields and symbol addresses.
pub mod maps;
pub mod types;
pub mod profile;
pub mod offsets;
pub mod text;
pub mod merge;
pub mod dwarf;
pub mod systemmap;
pub mod pdb;
pub mod ingest;
pub mod laws;
pub mod download;
