//! Core of an asynchronous image cache service.
//!
//! The cache sits between a resource service that fetches raw bytes and
//! consumers that want decoded images. It is organised as a single serial
//! actor: one inbox, one owner of all state. Prefetch and decode work is
//! handed to short-lived workers whose results come back through the same
//! inbox, so every state change is applied in receive order.
//!
//! This crate holds the verified decision logic of that actor: the message
//! protocol, the per-URL state machine, the waiter registry and the shutdown
//! gate. Processing one message is a function from the cache state and the
//! message to a new state and a list of [`Action`](msgs::Action)s; an
//! unverified driver owns the channels and threads, performs each action, and
//! feeds worker results back in.

pub mod cache;
pub mod console;
pub mod image;
pub mod laws;
pub mod msgs;
pub mod prefetch;
pub mod state;
pub mod sync_cache;
pub mod text;

pub use cache::initial_model;
pub use cache::spec_dispatch;
pub use cache::spec_step;
pub use cache::CacheModel;
pub use cache::DispatchModel;
pub use cache::ImageCache;
pub use cache::Step;
pub use cache::StepModel;
pub use console::Console;
pub use image::Image;
pub use image::ImageModel;
pub use laws::run_from;
pub use laws::TraceModel;
pub use msgs::Action;
pub use msgs::ActionModel;
pub use msgs::ImageResponseMsg;
pub use msgs::Misuse;
pub use msgs::Msg;
pub use msgs::MsgModel;
pub use msgs::ObserverId;
pub use msgs::ReplyTo;
pub use msgs::ResponseModel;
pub use msgs::Url;
pub use prefetch::load_image_data;
pub use prefetch::ProgressModel;
pub use prefetch::ProgressMsg;
pub use state::AfterPrefetch;
pub use state::ImageState;
pub use state::StateModel;
pub use sync_cache::sync_route;
pub use text::RenderBox;
pub use text::UnscannedMethods;
