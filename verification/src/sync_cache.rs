//! The synchronous wrapper: the same interface with blocking reads.
//!
//! A wrapper actor owns a private child cache and forwards every message to
//! it, rewriting `GetImage` into `WaitForImage` on the way. `Exit` is
//! forwarded and then ends the wrapper's own loop. The forwarding loop sits
//! with the driver; the rewrite and its consequence — a wrapped cache can
//! never answer `ImageNotReady` — are here.

use crate::cache::notifications;
use crate::cache::spec_dispatch;
use crate::cache::spec_step;
use crate::cache::CacheModel;
use crate::msgs::ActionModel;
use crate::msgs::Msg;
use crate::msgs::MsgModel;
use crate::msgs::ResponseModel;
use crate::state::StateModel;
use vstd::prelude::*;

verus! {

/// What the wrapper forwards for `m`, and whether the wrapper's own loop
/// ends after forwarding it.
pub open spec fn spec_sync_route(m: MsgModel) -> (MsgModel, bool) {
    match m {
        MsgModel::GetImage(u, reply) => (MsgModel::WaitForImage(u, reply), false),
        MsgModel::Exit(reply) => (MsgModel::Exit(reply), true),
        _ => (m, false),
    }
}

/// Rewrite one message for the child cache: `GetImage` becomes
/// `WaitForImage`, everything else passes through. The second part of the
/// result tells the wrapper's loop to end after forwarding an `Exit`.
pub fn sync_route(msg: Msg) -> (r: (Msg, bool))
    ensures
        r.0@ == spec_sync_route(msg@).0,
        r.1 == spec_sync_route(msg@).1,
{
    match msg {
        Msg::GetImage(url, reply) => (Msg::WaitForImage(url, reply), false),
        Msg::Exit(reply) => (Msg::Exit(reply), true),
        other => (other, false),
    }
}

/// A cache behind the synchronous wrapper never answers `ImageNotReady`:
/// every message reaches it routed, so it never sees a `GetImage`, and no
/// other message is ever answered with `ImageNotReady`.
pub proof fn lemma_sync_never_not_ready(c: CacheModel, m: MsgModel)
    requires
        spec_step(c, spec_sync_route(m).0).fatal is None,
    ensures
        forall|j: int|
            0 <= j < spec_step(c, spec_sync_route(m).0).actions.len() ==> !((
            #[trigger] spec_step(c, spec_sync_route(m).0).actions[j]) matches ActionModel::Respond(
                _,
                ResponseModel::NotReady,
            )),
{
    let routed = spec_sync_route(m).0;
    let st = spec_step(c, routed);
    let note = notifications(c);
    let d = spec_dispatch(c, routed);
    if st.stop {
        assert(st.actions =~= (note + d.actions) + seq![st.actions.last()]);
    } else {
        assert(st.actions =~= note + d.actions);
    }
    assert forall|j: int| 0 <= j < d.actions.len() implies !((#[trigger] d.actions[j]) matches ActionModel::Respond(
        _,
        ResponseModel::NotReady,
    )) by {
        match routed {
            MsgModel::StorePrefetchedImageData(u, data) => {
                if c.states[u] matches StateModel::Prefetching(_) && data is Err {
                    assert(d.actions =~= crate::cache::drain_responses(
                        c.waiters[u],
                        ResponseModel::Failed,
                    ));
                }
            },
            MsgModel::StoreImage(u, image) => {
                if c.states[u] is Decoding {
                    match image {
                        Some(im) => {
                            assert(d.actions =~= crate::cache::drain_responses(
                                c.waiters[u],
                                ResponseModel::Ready(im),
                            ));
                        },
                        None => {
                            assert(d.actions =~= crate::cache::drain_responses(
                                c.waiters[u],
                                ResponseModel::Failed,
                            ));
                        },
                    }
                }
            },
            _ => {},
        }
    }
}

} // verus!
