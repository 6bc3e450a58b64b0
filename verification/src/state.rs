//! Per-URL state of the cache.

use crate::image::Image;
use crate::image::ImageModel;
use std::sync::Arc;
use vstd::prelude::*;

verus! {

/// What to do once the prefetched bytes arrive.
///
/// `DoDecode` records that a `Decode` request came in while the bytes were
/// still in flight; the decoder is then started as soon as they land.
#[derive(PartialEq, Eq, Structural, Clone, Copy, Debug)]
pub enum AfterPrefetch {
    DoDecode,
    DoNotDecode,
}

/// The state of processing an image for one URL.
///
/// A URL that was never mentioned is implicitly in `Init`; the cache never
/// stores that case. `Decoded` and `Failed` are terminal.
#[derive(Debug)]
pub enum ImageState {
    /// No work begun.
    Init,
    /// A prefetcher is running; the payload says whether a decode is queued.
    Prefetching(AfterPrefetch),
    /// Raw bytes arrived, no decode requested yet. Starting the decode
    /// consumes the buffer.
    Prefetched(Vec<u8>),
    /// A decoder is running.
    Decoding,
    /// The decoded image, handed out under a cloned handle on every read.
    Decoded(Arc<Image>),
    /// Fetch or decode failed; the URL is poisoned for good.
    Failed,
}

/// Mathematical value of an [`ImageState`].
pub enum StateModel {
    Init,
    Prefetching(AfterPrefetch),
    Prefetched(Seq<u8>),
    Decoding,
    Decoded(ImageModel),
    Failed,
}

impl View for ImageState {
    type V = StateModel;

    open spec fn view(&self) -> StateModel {
        match self {
            ImageState::Init => StateModel::Init,
            ImageState::Prefetching(next) => StateModel::Prefetching(*next),
            ImageState::Prefetched(data) => StateModel::Prefetched(data@),
            ImageState::Decoding => StateModel::Decoding,
            ImageState::Decoded(image) => StateModel::Decoded(image@),
            ImageState::Failed => StateModel::Failed,
        }
    }
}

impl StateModel {
    /// A worker is still out for this URL: a prefetcher or a decoder.
    ///
    /// Shutdown waits until no URL is in such a state.
    pub open spec fn is_transient(self) -> bool {
        self is Prefetching || self is Decoding
    }

    /// The URL has settled: every future query gets the same answer.
    pub open spec fn is_terminal(self) -> bool {
        self is Decoded || self is Failed
    }

    /// Waiters may be enrolled only while the URL is on its way to a decode.
    pub open spec fn accepts_waiters(self) -> bool {
        self == StateModel::Prefetching(AfterPrefetch::DoDecode) || self is Decoding
    }
}

} // verus!
