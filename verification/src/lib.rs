//! Reading and editing of audio metadata through one normalized model.
//!
//! A tag of some format holds its fields in that format's own way: a RIFF
//! file in the chunks of an INFO list, an MPEG-4 file in atoms. `AnyTag` is
//! a snapshot of the fields that does not depend on the format; it is taken
//! from a tag of one format and can be turned into a tag of another.

pub mod any_tag;
pub mod chunk;
pub mod decimal;
pub mod error;
pub mod mp4_atoms;
pub mod mp4_convert;
pub mod mp4_inner;
pub mod mp4_laws;
pub mod mp4_tag;
pub mod picture;
pub mod riff_convert;
pub mod riff_fields;
pub mod riff_tag;
pub mod store;
pub mod text;

pub use crate::any_tag::{Album, AnyTag, ToAnyTag};
pub use crate::chunk::{Chunk, Container};
pub use crate::error::Error;
pub use crate::mp4_atoms::Data;
pub use crate::mp4_tag::Mp4Tag;
pub use crate::picture::{MimeType, Picture};
pub use crate::riff_fields::Field;
pub use crate::riff_tag::RiffTag;
pub use crate::store::TagStore;
