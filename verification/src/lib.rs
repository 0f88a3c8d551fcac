//! Reader and writer for the chunked binary container format used by
//! Blender "blend" files: a fixed 12-byte header, a sequence of
//! self-describing blocks, and a trailing struct-catalog region, with
//! optional whole-file compression.

pub mod blend_file;
pub mod block;
pub mod compress;
pub mod dna;
pub mod dna_io;
pub mod dna_name;
pub mod error;
pub mod header;
pub mod library_link;
pub mod paths;
pub mod text;
pub mod wherego;
pub mod wire;

pub use blend_file::BlendFile;
pub use error::BlendFileError;
pub use library_link::LibraryLink;
