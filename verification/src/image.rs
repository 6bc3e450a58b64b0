//! Decoded images and the shared handles under which they circulate.

use std::sync::Arc;
use vstd::prelude::*;

verus! {

/// A decoded image: the opaque product of the decoder, immutable once built.
///
/// Consumers receive it under an [`Arc`] handle, so that handing the same
/// image to many consumers never copies the pixel data.
#[derive(Debug)]
pub struct Image {
    pub width: u32,
    pub height: u32,
    pub data: Vec<u8>,
}

/// Mathematical value of an [`Image`].
pub struct ImageModel {
    pub width: u32,
    pub height: u32,
    pub data: Seq<u8>,
}

impl View for Image {
    type V = ImageModel;

    open spec fn view(&self) -> ImageModel {
        ImageModel { width: self.width, height: self.height, data: self.data@ }
    }
}

/// Relies on `Arc::clone` of std: the clone is a second handle to the very
/// same allocation, so both handles stand for the same image and no pixel
/// data is copied.
#[verifier::external_body]
pub fn clone_arc(handle: &Arc<Image>) -> (r: Arc<Image>)
    ensures
        r == *handle,
{
    handle.clone()
}

} // verus!
