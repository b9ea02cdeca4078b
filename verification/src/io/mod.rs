//! The rules of the file format, of media names and of the recovery copy.
pub mod archive;
pub mod media;
pub mod pulso_file;
pub mod recovery;
