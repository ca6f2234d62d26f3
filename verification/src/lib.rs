//! Writing a state snapshot of the live object set: the file formats, the naming of the files,
//! and the decisions that a writer takes between one piece of input or output and the next.
pub mod encoding;
pub mod format_laws;
pub mod metadata;
pub mod name_laws;
pub mod names;
pub mod object_writer;
pub mod read_back_laws;
pub mod snapshot_laws;
pub mod snapshot_writer;
pub mod step_laws;
pub mod upload;
pub mod upload_laws;
pub mod writer_laws;

pub use encoding::{Blob, Encoding, LiveObject, ObjectRef};
