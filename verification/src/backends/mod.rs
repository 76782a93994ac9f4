//! What the fast paths run: searches, listings and readings.
pub mod directory;
pub mod everything;
pub mod file_laws;
pub mod grep;
pub mod inspect_file;
pub mod inspect_laws;
pub mod laws;
pub mod projection;
pub mod slice;
pub mod walk;
