//! Cover art as an opaque payload with its image type.

use vstd::prelude::*;

verus! {

/// The image types that a picture can have.
#[derive(Clone, Copy, Debug, PartialEq, Eq, Structural)]
pub enum MimeType {
    Png,
    Jpeg,
    Tiff,
    Bmp,
    Gif,
}

/// A picture: image bytes borrowed from the tag that holds them, and their
/// image type.
#[derive(Clone, Copy, Debug, PartialEq, Eq)]
pub struct Picture<'a> {
    pub data: &'a [u8],
    pub mime_type: MimeType,
}

/// What a `Picture` holds.
pub struct PictureView {
    pub data: Seq<u8>,
    pub mime_type: MimeType,
}

impl<'a> View for Picture<'a> {
    type V = PictureView;

    open spec fn view(&self) -> PictureView {
        PictureView { data: self.data@, mime_type: self.mime_type }
    }
}

/// What an optional picture holds.
pub open spec fn opt_picture_view(o: Option<Picture>) -> Option<PictureView> {
    match o {
        Some(p) => Some(p@),
        None => None,
    }
}

impl<'a> Picture<'a> {
    /// A picture of the given type over the given bytes.
    pub fn new(data: &'a [u8], mime_type: MimeType) -> (r: Picture<'a>)
        ensures
            r@ == (PictureView { data: data@, mime_type }),
    {
        Picture { data, mime_type }
    }
}

} // verus!
