//! The message protocol of the cache actor and the actions it emits.

use crate::image::Image;
use crate::image::ImageModel;
use std::sync::Arc;
use vstd::prelude::*;

verus! {

/// An opaque, comparable key naming an image's origin.
///
/// The cache never looks inside a URL; the driver maps real addresses to
/// keys and back.
#[derive(PartialEq, Eq, Structural, Clone, Copy, Debug)]
pub struct Url {
    pub key: u64,
}

/// Names a single-shot reply channel held by the driver.
///
/// The cache promises exactly one response per reply; the driver owns the
/// channel itself and performs the send.
#[derive(PartialEq, Eq, Structural, Clone, Copy, Debug)]
pub struct ReplyTo {
    pub id: u64,
}

/// Names a registered message observer (a test hook held by the driver).
#[derive(PartialEq, Eq, Structural, Clone, Copy, Debug)]
pub struct ObserverId {
    pub id: u64,
}

/// The answer to a `GetImage` or `WaitForImage` query.
#[derive(Debug)]
pub enum ImageResponseMsg {
    /// The decoded image, under an independently owned handle.
    ImageReady(Arc<Image>),
    /// Still fetching or decoding; ask again later.
    ImageNotReady,
    /// The fetch or the decode failed; the URL will never be ready.
    ImageFailed,
}

/// Mathematical value of an [`ImageResponseMsg`].
pub enum ResponseModel {
    Ready(ImageModel),
    NotReady,
    Failed,
}

impl View for ImageResponseMsg {
    type V = ResponseModel;

    open spec fn view(&self) -> ResponseModel {
        match self {
            ImageResponseMsg::ImageReady(image) => ResponseModel::Ready(image@),
            ImageResponseMsg::ImageNotReady => ResponseModel::NotReady,
            ImageResponseMsg::ImageFailed => ResponseModel::Failed,
        }
    }
}

impl Clone for ImageResponseMsg {
    /// Cloning a `ImageReady` response clones the handle, not the image.
    fn clone(&self) -> (r: Self)
        ensures
            r@ == self@,
    {
        match self {
            ImageResponseMsg::ImageReady(image) => ImageResponseMsg::ImageReady(
                crate::image::clone_arc(image),
            ),
            ImageResponseMsg::ImageNotReady => ImageResponseMsg::ImageNotReady,
            ImageResponseMsg::ImageFailed => ImageResponseMsg::ImageFailed,
        }
    }
}

impl ImageResponseMsg {
    /// Equality of responses. Two `ImageReady` values carry whole images and
    /// are never compared; callers must rule that pair out.
    pub fn eq(&self, other: &ImageResponseMsg) -> (r: bool)
        requires
            !(self@ is Ready && other@ is Ready),
        ensures
            r == (self@ == other@),
    {
        match (self, other) {
            (ImageResponseMsg::ImageNotReady, ImageResponseMsg::ImageNotReady) => true,
            (ImageResponseMsg::ImageFailed, ImageResponseMsg::ImageFailed) => true,
            _ => false,
        }
    }
}

impl Clone for Msg {
    /// Cloning a message copies its byte payload and shares its image
    /// handle, so an observer can be shown the message the cache processes.
    fn clone(&self) -> (r: Self)
        ensures
            r@ == self@,
    {
        match self {
            Msg::Prefetch(url) => Msg::Prefetch(*url),
            Msg::StorePrefetchedImageData(url, data) => Msg::StorePrefetchedImageData(
                *url,
                match data {
                    Ok(bytes) => {
                        let copied = bytes.clone();
                        proof {
                            assert(copied@ =~= bytes@);
                        }
                        Ok(copied)
                    },
                    Err(_) => Err(()),
                },
            ),
            Msg::Decode(url) => Msg::Decode(*url),
            Msg::StoreImage(url, image) => Msg::StoreImage(
                *url,
                match image {
                    Some(handle) => Some(crate::image::clone_arc(handle)),
                    None => None,
                },
            ),
            Msg::GetImage(url, reply) => Msg::GetImage(*url, *reply),
            Msg::WaitForImage(url, reply) => Msg::WaitForImage(*url, *reply),
            Msg::OnMsg(observer) => Msg::OnMsg(*observer),
            Msg::Exit(reply) => Msg::Exit(*reply),
        }
    }
}

/// One message of the cache's inbox.
///
/// `Prefetch`, `Decode`, `GetImage`, `WaitForImage`, `OnMsg` and `Exit` come
/// from consumers; `StorePrefetchedImageData` and `StoreImage` are posted by
/// the cache's own workers and share the inbox so that every state change is
/// applied in receive order.
#[derive(Debug)]
pub enum Msg {
    /// Begin fetching the bytes for this URL, if not already begun. Must
    /// precede `Decode`.
    Prefetch(Url),
    /// A prefetcher's report: the fetched bytes, or a fetch failure.
    StorePrefetchedImageData(Url, Result<Vec<u8>, ()>),
    /// Decode this URL's bytes once they are in. Must precede any query.
    Decode(Url),
    /// A decoder's report: the decoded image, or `None` on rejection.
    StoreImage(Url, Option<Arc<Image>>),
    /// Non-blocking query; answered at once from the current state.
    GetImage(Url, ReplyTo),
    /// Blocking query; answered when the URL settles.
    WaitForImage(Url, ReplyTo),
    /// Register an observer to be told of every later message, pre-dispatch.
    OnMsg(ObserverId),
    /// Ask for quiescent shutdown; acknowledged once no worker is out.
    Exit(ReplyTo),
}

/// Mathematical value of a [`Msg`].
pub enum MsgModel {
    Prefetch(Url),
    StorePrefetchedImageData(Url, Result<Seq<u8>, ()>),
    Decode(Url),
    StoreImage(Url, Option<ImageModel>),
    GetImage(Url, ReplyTo),
    WaitForImage(Url, ReplyTo),
    OnMsg(ObserverId),
    Exit(ReplyTo),
}

/// The value of a prefetcher's report: the bytes, or the fetch failure.
pub open spec fn bytes_result_model(data: Result<Vec<u8>, ()>) -> Result<Seq<u8>, ()> {
    match data {
        Ok(bytes) => Ok(bytes@),
        Err(_) => Err(()),
    }
}

/// The value of a decoder's report: the image, or the rejection.
pub open spec fn image_option_model(image: Option<Arc<Image>>) -> Option<ImageModel> {
    match image {
        Some(handle) => Some(handle@),
        None => None,
    }
}

impl View for Msg {
    type V = MsgModel;

    open spec fn view(&self) -> MsgModel {
        match self {
            Msg::Prefetch(url) => MsgModel::Prefetch(*url),
            Msg::StorePrefetchedImageData(url, data) => MsgModel::StorePrefetchedImageData(
                *url,
                bytes_result_model(*data),
            ),
            Msg::Decode(url) => MsgModel::Decode(*url),
            Msg::StoreImage(url, image) => MsgModel::StoreImage(
                *url,
                image_option_model(*image),
            ),
            Msg::GetImage(url, reply) => MsgModel::GetImage(*url, *reply),
            Msg::WaitForImage(url, reply) => MsgModel::WaitForImage(*url, *reply),
            Msg::OnMsg(observer) => MsgModel::OnMsg(*observer),
            Msg::Exit(reply) => MsgModel::Exit(*reply),
        }
    }
}

/// What the driver must do after a message is processed.
///
/// The cache never touches a channel or a thread itself: it hands these out
/// and the driver performs them, in order.
#[derive(Debug)]
pub enum Action {
    /// Invoke this registered observer with the message just received.
    Notify(ObserverId),
    /// Start a prefetcher: load the URL from the resource service and post
    /// the outcome back as `StorePrefetchedImageData`.
    SpawnPrefetch(Url),
    /// Start a decoder on these bytes and post the outcome back as
    /// `StoreImage`.
    SpawnDecode(Url, Vec<u8>),
    /// Send this response on the named reply channel. If the receiver is
    /// gone the send is a no-op.
    Respond(ReplyTo, ImageResponseMsg),
    /// Acknowledge the pending shutdown; the actor stops after this.
    AckExit(ReplyTo),
}

/// Mathematical value of an [`Action`].
pub enum ActionModel {
    Notify(ObserverId),
    SpawnPrefetch(Url),
    SpawnDecode(Url, Seq<u8>),
    Respond(ReplyTo, ResponseModel),
    AckExit(ReplyTo),
}

impl View for Action {
    type V = ActionModel;

    open spec fn view(&self) -> ActionModel {
        match self {
            Action::Notify(observer) => ActionModel::Notify(*observer),
            Action::SpawnPrefetch(url) => ActionModel::SpawnPrefetch(*url),
            Action::SpawnDecode(url, data) => ActionModel::SpawnDecode(*url, data@),
            Action::Respond(reply, response) => ActionModel::Respond(*reply, response@),
            Action::AckExit(reply) => ActionModel::AckExit(*reply),
        }
    }
}

/// The values of a sequence of actions.
pub open spec fn actions_model(acts: Seq<Action>) -> Seq<ActionModel> {
    acts.map_values(|a: Action| a@)
}

/// A caller broke the protocol: `Prefetch` before `Decode` before any query,
/// worker reports only in the state that spawned the worker, one `Exit`.
///
/// These are fatal to the actor: a faithful driver aborts when it sees
/// one.
#[derive(PartialEq, Eq, Structural, Clone, Copy, Debug)]
pub enum Misuse {
    /// `Decode` for a URL that was never prefetched.
    DecodeBeforePrefetch,
    /// A query for a URL that was never prefetched.
    RequestBeforePrefetch,
    /// A query for a URL whose decode was never requested.
    RequestBeforeDecode,
    /// A prefetcher report for a URL not in `Prefetching`.
    StoreDataWrongState,
    /// A decoder report for a URL not in `Decoding`.
    StoreImageWrongState,
    /// A second `Exit` while one is already pending.
    ExitAlreadyPending,
}

} // verus!
