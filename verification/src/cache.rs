//! The cache actor's state and its message-processing logic.
//!
//! The actor owns a per-URL state map, a registry of waiters, the pending
//! shutdown request and the observer list. Processing one message yields a
//! list of [`Action`]s for the driver; the whole effect of a message is
//! pinned down by [`spec_step`].

use crate::image::clone_arc;
use crate::image::Image;
use crate::image::ImageModel;
use crate::msgs::actions_model;
use crate::msgs::bytes_result_model;
use crate::msgs::image_option_model;
use crate::msgs::Action;
use crate::msgs::ActionModel;
use crate::msgs::ImageResponseMsg;
use crate::msgs::Misuse;
use crate::msgs::Msg;
use crate::msgs::MsgModel;
use crate::msgs::ObserverId;
use crate::msgs::ReplyTo;
use crate::msgs::ResponseModel;
use crate::msgs::Url;
use crate::state::AfterPrefetch;
use crate::state::ImageState;
use crate::state::StateModel;
use std::sync::Arc;
use vstd::prelude::*;

verus! {

/// Mathematical value of the whole cache.
///
/// Both maps are total: a URL that was never touched is at `Init`, a URL
/// with no waiters is at the empty sequence.
pub struct CacheModel {
    pub states: Map<Url, StateModel>,
    pub waiters: Map<Url, Seq<ReplyTo>>,
    pub pending_exit: Option<ReplyTo>,
    pub observers: Seq<ObserverId>,
}

/// The state stored for `u` in an association list, `Init` if absent.
pub open spec fn lookup_state(entries: Seq<(Url, ImageState)>, u: Url) -> StateModel
    decreases entries.len(),
{
    if entries.len() == 0 {
        StateModel::Init
    } else if entries.last().0 == u {
        entries.last().1@
    } else {
        lookup_state(entries.drop_last(), u)
    }
}

/// The waiter list stored for `u` in an association list, empty if absent.
pub open spec fn lookup_waiters(entries: Seq<(Url, Vec<ReplyTo>)>, u: Url) -> Seq<ReplyTo>
    decreases entries.len(),
{
    if entries.len() == 0 {
        Seq::empty()
    } else if entries.last().0 == u {
        entries.last().1@
    } else {
        lookup_waiters(entries.drop_last(), u)
    }
}

/// Each URL keys at most one entry.
pub open spec fn distinct_keys<T>(entries: Seq<(Url, T)>) -> bool {
    forall|i: int, j: int|
        0 <= i < j < entries.len() ==> (#[trigger] entries[i]).0 != (#[trigger] entries[j]).0
}

/// The cache actor's state: owned by one task, never shared.
pub struct ImageCache {
    /// The state of processing an image for each URL.
    state_map: Vec<(Url, ImageState)>,
    /// Reply channels awaiting settlement, per URL.
    wait_map: Vec<(Url, Vec<ReplyTo>)>,
    /// A shutdown request not yet acknowledged.
    need_exit: Option<ReplyTo>,
    /// Observers told of every message, in registration order.
    observers: Vec<ObserverId>,
}

impl View for ImageCache {
    type V = CacheModel;

    closed spec fn view(&self) -> CacheModel {
        CacheModel {
            states: Map::new(|u: Url| true, |u: Url| lookup_state(self.state_map@, u)),
            waiters: Map::new(|u: Url| true, |u: Url| lookup_waiters(self.wait_map@, u)),
            pending_exit: self.need_exit,
            observers: self.observers@,
        }
    }
}

impl CacheModel {
    /// No worker is out: nothing is prefetching or decoding.
    pub open spec fn quiescent(self) -> bool {
        forall|u: Url| !(#[trigger] self.states[u]).is_transient()
    }
}

/// The cache a fresh actor starts from: everything at `Init`, nobody
/// waiting, no shutdown pending, no observers.
pub open spec fn initial_model() -> CacheModel {
    CacheModel {
        states: Map::new(|u: Url| true, |u: Url| StateModel::Init),
        waiters: Map::new(|u: Url| true, |u: Url| Seq::empty()),
        pending_exit: None,
        observers: Seq::empty(),
    }
}

/// What dispatching one message does, before the shutdown gate: the new
/// cache, the actions it asks of the driver, and whether the message was a
/// protocol violation (on which the cache changes nothing).
pub struct DispatchModel {
    pub cache: CacheModel,
    pub actions: Seq<ActionModel>,
    pub fatal: Option<Misuse>,
}

/// One response action per enrolled waiter, in enrollment order.
pub open spec fn drain_responses(ws: Seq<ReplyTo>, response: ResponseModel) -> Seq<ActionModel> {
    ws.map_values(|w: ReplyTo| ActionModel::Respond(w, response))
}

/// `Prefetch(u)`: on `Init` start a prefetcher and move to
/// `Prefetching(DoNotDecode)`; in every other state the work has already
/// begun and the message is a no-op.
pub open spec fn spec_prefetch(c: CacheModel, u: Url) -> DispatchModel {
    if c.states[u] is Init {
        DispatchModel {
            cache: (CacheModel {
                states: c.states.insert(u, StateModel::Prefetching(AfterPrefetch::DoNotDecode)),
                ..c
            }),
            actions: seq![ActionModel::SpawnPrefetch(u)],
            fatal: None,
        }
    } else {
        DispatchModel { cache: c, actions: seq![], fatal: None }
    }
}

/// `StorePrefetchedImageData(u, data)`: only legal while `Prefetching`.
/// Good bytes either rest in `Prefetched` or, if a decode is queued, start
/// the decoder at once; a fetch failure settles the URL as `Failed` and
/// serves every waiter `ImageFailed`.
pub open spec fn spec_store_prefetched(
    c: CacheModel,
    u: Url,
    data: Result<Seq<u8>, ()>,
) -> DispatchModel {
    match c.states[u] {
        StateModel::Prefetching(next) => match data {
            Ok(bytes) => {
                if next == AfterPrefetch::DoDecode {
                    DispatchModel {
                        cache: (CacheModel { states: c.states.insert(u, StateModel::Decoding), ..c }),
                        actions: seq![ActionModel::SpawnDecode(u, bytes)],
                        fatal: None,
                    }
                } else {
                    DispatchModel {
                        cache: (CacheModel {
                            states: c.states.insert(u, StateModel::Prefetched(bytes)),
                            ..c
                        }),
                        actions: seq![],
                        fatal: None,
                    }
                }
            },
            Err(_) => DispatchModel {
                cache: (CacheModel {
                    states: c.states.insert(u, StateModel::Failed),
                    waiters: c.waiters.insert(u, Seq::empty()),
                    ..c
                }),
                actions: drain_responses(c.waiters[u], ResponseModel::Failed),
                fatal: None,
            },
        },
        _ => DispatchModel { cache: c, actions: seq![], fatal: Some(Misuse::StoreDataWrongState) },
    }
}

/// `Decode(u)`: before the bytes are in, queue the decode; once they are in,
/// consume the buffer and start the decoder; after that the message is a
/// no-op. Decoding a URL that was never prefetched is a protocol violation.
pub open spec fn spec_decode(c: CacheModel, u: Url) -> DispatchModel {
    match c.states[u] {
        StateModel::Init => DispatchModel {
            cache: c,
            actions: seq![],
            fatal: Some(Misuse::DecodeBeforePrefetch),
        },
        StateModel::Prefetching(next) => {
            if next == AfterPrefetch::DoNotDecode {
                DispatchModel {
                    cache: (CacheModel {
                        states: c.states.insert(u, StateModel::Prefetching(AfterPrefetch::DoDecode)),
                        ..c
                    }),
                    actions: seq![],
                    fatal: None,
                }
            } else {
                DispatchModel { cache: c, actions: seq![], fatal: None }
            }
        },
        StateModel::Prefetched(bytes) => DispatchModel {
            cache: (CacheModel { states: c.states.insert(u, StateModel::Decoding), ..c }),
            actions: seq![ActionModel::SpawnDecode(u, bytes)],
            fatal: None,
        },
        _ => DispatchModel { cache: c, actions: seq![], fatal: None },
    }
}

/// `StoreImage(u, image)`: only legal while `Decoding`. The URL settles as
/// `Decoded` or `Failed`, and every waiter is served from the settled state.
pub open spec fn spec_store_image(
    c: CacheModel,
    u: Url,
    image: Option<ImageModel>,
) -> DispatchModel {
    match c.states[u] {
        StateModel::Decoding => match image {
            Some(im) => DispatchModel {
                cache: (CacheModel {
                    states: c.states.insert(u, StateModel::Decoded(im)),
                    waiters: c.waiters.insert(u, Seq::empty()),
                    ..c
                }),
                actions: drain_responses(c.waiters[u], ResponseModel::Ready(im)),
                fatal: None,
            },
            None => DispatchModel {
                cache: (CacheModel {
                    states: c.states.insert(u, StateModel::Failed),
                    waiters: c.waiters.insert(u, Seq::empty()),
                    ..c
                }),
                actions: drain_responses(c.waiters[u], ResponseModel::Failed),
                fatal: None,
            },
        },
        _ => DispatchModel { cache: c, actions: seq![], fatal: Some(Misuse::StoreImageWrongState) },
    }
}

/// The one response a query in state `s` gets at once, if any: `None` here
/// means the caller must wait (only `WaitForImage` may).
pub open spec fn immediate_response(s: StateModel) -> Option<ResponseModel> {
    match s {
        StateModel::Decoded(im) => Some(ResponseModel::Ready(im)),
        StateModel::Failed => Some(ResponseModel::Failed),
        _ => None,
    }
}

/// Which violation a query in state `s` is, if any: querying before
/// `Prefetch`, or before `Decode`, is one.
pub open spec fn query_misuse(s: StateModel) -> Option<Misuse> {
    match s {
        StateModel::Init => Some(Misuse::RequestBeforePrefetch),
        StateModel::Prefetching(next) => {
            if next == AfterPrefetch::DoNotDecode {
                Some(Misuse::RequestBeforeDecode)
            } else {
                None
            }
        },
        StateModel::Prefetched(_) => Some(Misuse::RequestBeforeDecode),
        _ => None,
    }
}

/// `GetImage(u, reply)`: answer at once from the current state, never
/// blocking: `ImageNotReady` while work is in flight, else the settled
/// answer. The state does not change.
pub open spec fn spec_get_image(c: CacheModel, u: Url, reply: ReplyTo) -> DispatchModel {
    match query_misuse(c.states[u]) {
        Some(m) => DispatchModel { cache: c, actions: seq![], fatal: Some(m) },
        None => match immediate_response(c.states[u]) {
            Some(response) => DispatchModel {
                cache: c,
                actions: seq![ActionModel::Respond(reply, response)],
                fatal: None,
            },
            None => DispatchModel {
                cache: c,
                actions: seq![ActionModel::Respond(reply, ResponseModel::NotReady)],
                fatal: None,
            },
        },
    }
}

/// `WaitForImage(u, reply)`: a settled URL answers at once; an unsettled one
/// enrolls the reply, to be served when the URL settles.
pub open spec fn spec_wait_for_image(c: CacheModel, u: Url, reply: ReplyTo) -> DispatchModel {
    match query_misuse(c.states[u]) {
        Some(m) => DispatchModel { cache: c, actions: seq![], fatal: Some(m) },
        None => match immediate_response(c.states[u]) {
            Some(response) => DispatchModel {
                cache: c,
                actions: seq![ActionModel::Respond(reply, response)],
                fatal: None,
            },
            None => DispatchModel {
                cache: (CacheModel {
                    waiters: c.waiters.insert(u, c.waiters[u].push(reply)),
                    ..c
                }),
                actions: seq![],
                fatal: None,
            },
        },
    }
}

/// `OnMsg(observer)`: append the observer; it sees every later message.
pub open spec fn spec_on_msg(c: CacheModel, observer: ObserverId) -> DispatchModel {
    DispatchModel {
        cache: (CacheModel { observers: c.observers.push(observer), ..c }),
        actions: seq![],
        fatal: None,
    }
}

/// `Exit(reply)`: record the shutdown request; asking twice is a protocol
/// violation. The acknowledgement itself comes from the shutdown gate.
pub open spec fn spec_exit(c: CacheModel, reply: ReplyTo) -> DispatchModel {
    if c.pending_exit is Some {
        DispatchModel { cache: c, actions: seq![], fatal: Some(Misuse::ExitAlreadyPending) }
    } else {
        DispatchModel {
            cache: (CacheModel { pending_exit: Some(reply), ..c }),
            actions: seq![],
            fatal: None,
        }
    }
}

/// Dispatch on one message, before the shutdown gate.
pub open spec fn spec_dispatch(c: CacheModel, m: MsgModel) -> DispatchModel {
    match m {
        MsgModel::Prefetch(u) => spec_prefetch(c, u),
        MsgModel::StorePrefetchedImageData(u, data) => spec_store_prefetched(c, u, data),
        MsgModel::Decode(u) => spec_decode(c, u),
        MsgModel::StoreImage(u, image) => spec_store_image(c, u, image),
        MsgModel::GetImage(u, reply) => spec_get_image(c, u, reply),
        MsgModel::WaitForImage(u, reply) => spec_wait_for_image(c, u, reply),
        MsgModel::OnMsg(observer) => spec_on_msg(c, observer),
        MsgModel::Exit(reply) => spec_exit(c, reply),
    }
}

/// The whole effect of receiving one message: the new cache, every action
/// handed to the driver, and whether the actor stops.
///
/// On a protocol violation the actor dies: nothing changes, nothing is
/// emitted, and a faithful driver aborts.
pub struct StepModel {
    pub cache: CacheModel,
    pub actions: Seq<ActionModel>,
    pub stop: bool,
    pub fatal: Option<Misuse>,
}

/// One `Notify` per registered observer, in registration order; these come
/// before every other action of a step.
pub open spec fn notifications(c: CacheModel) -> Seq<ActionModel> {
    c.observers.map_values(|o: ObserverId| ActionModel::Notify(o))
}

/// Receiving one message: notify the observers, dispatch, then the shutdown
/// gate: once an exit is pending and no worker is out, acknowledge it and
/// stop.
pub open spec fn spec_step(c: CacheModel, m: MsgModel) -> StepModel {
    let d = spec_dispatch(c, m);
    if d.fatal is Some {
        StepModel { cache: c, actions: Seq::empty(), stop: false, fatal: d.fatal }
    } else {
        match d.cache.pending_exit {
            Some(reply) => {
                if d.cache.quiescent() {
                    StepModel {
                        cache: (CacheModel { pending_exit: None, ..d.cache }),
                        actions: notifications(c) + d.actions + seq![ActionModel::AckExit(reply)],
                        stop: true,
                        fatal: None,
                    }
                } else {
                    StepModel {
                        cache: d.cache,
                        actions: notifications(c) + d.actions,
                        stop: false,
                        fatal: None,
                    }
                }
            },
            None => StepModel {
                cache: d.cache,
                actions: notifications(c) + d.actions,
                stop: false,
                fatal: None,
            },
        }
    }
}

proof fn lemma_lookup_state_absent(entries: Seq<(Url, ImageState)>, u: Url)
    requires
        forall|j: int| 0 <= j < entries.len() ==> (#[trigger] entries[j]).0 != u,
    ensures
        lookup_state(entries, u) == StateModel::Init,
    decreases entries.len(),
{
    if entries.len() > 0 {
        lemma_lookup_state_absent(entries.drop_last(), u);
    }
}

proof fn lemma_lookup_state_present(entries: Seq<(Url, ImageState)>, u: Url, i: int)
    requires
        distinct_keys(entries),
        0 <= i < entries.len(),
        entries[i].0 == u,
    ensures
        lookup_state(entries, u) == entries[i].1@,
    decreases entries.len(),
{
    if i == entries.len() - 1 {
    } else {
        assert(entries.last().0 != u);
        lemma_lookup_state_present(entries.drop_last(), u, i);
    }
}

proof fn lemma_lookup_state_update(entries: Seq<(Url, ImageState)>, i: int, st: ImageState, v: Url)
    requires
        distinct_keys(entries),
        0 <= i < entries.len(),
    ensures
        lookup_state(entries.update(i, (entries[i].0, st)), v) == if v == entries[i].0 {
            st@
        } else {
            lookup_state(entries, v)
        },
    decreases entries.len(),
{
    let updated = entries.update(i, (entries[i].0, st));
    if i == entries.len() - 1 {
        assert(updated.last() == (entries[i].0, st));
        if v != entries[i].0 {
            assert(updated.drop_last() =~= entries.drop_last());
        }
    } else {
        assert(updated.last() == entries.last());
        assert(updated.drop_last() =~= entries.drop_last().update(i, (entries[i].0, st)));
        lemma_lookup_state_update(entries.drop_last(), i, st, v);
    }
}

proof fn lemma_lookup_state_is_entry(entries: Seq<(Url, ImageState)>, u: Url)
    ensures
        lookup_state(entries, u) == StateModel::Init || exists|j: int|
            0 <= j < entries.len() && (#[trigger] entries[j]).0 == u && entries[j].1@
                == lookup_state(entries, u),
    decreases entries.len(),
{
    if entries.len() > 0 && entries.last().0 != u {
        lemma_lookup_state_is_entry(entries.drop_last(), u);
    }
}

proof fn lemma_lookup_waiters_absent(entries: Seq<(Url, Vec<ReplyTo>)>, u: Url)
    requires
        forall|j: int| 0 <= j < entries.len() ==> (#[trigger] entries[j]).0 != u,
    ensures
        lookup_waiters(entries, u) == Seq::<ReplyTo>::empty(),
    decreases entries.len(),
{
    if entries.len() > 0 {
        lemma_lookup_waiters_absent(entries.drop_last(), u);
    }
}

proof fn lemma_lookup_waiters_present(entries: Seq<(Url, Vec<ReplyTo>)>, u: Url, i: int)
    requires
        distinct_keys(entries),
        0 <= i < entries.len(),
        entries[i].0 == u,
    ensures
        lookup_waiters(entries, u) == entries[i].1@,
    decreases entries.len(),
{
    if i == entries.len() - 1 {
    } else {
        assert(entries.last().0 != u);
        lemma_lookup_waiters_present(entries.drop_last(), u, i);
    }
}

proof fn lemma_lookup_waiters_update(
    entries: Seq<(Url, Vec<ReplyTo>)>,
    i: int,
    ws: Vec<ReplyTo>,
    v: Url,
)
    requires
        distinct_keys(entries),
        0 <= i < entries.len(),
    ensures
        lookup_waiters(entries.update(i, (entries[i].0, ws)), v) == if v == entries[i].0 {
            ws@
        } else {
            lookup_waiters(entries, v)
        },
    decreases entries.len(),
{
    let updated = entries.update(i, (entries[i].0, ws));
    if i == entries.len() - 1 {
        assert(updated.last() == (entries[i].0, ws));
        if v != entries[i].0 {
            assert(updated.drop_last() =~= entries.drop_last());
        }
    } else {
        assert(updated.last() == entries.last());
        assert(updated.drop_last() =~= entries.drop_last().update(i, (entries[i].0, ws)));
        lemma_lookup_waiters_update(entries.drop_last(), i, ws, v);
    }
}

impl ImageCache {
    /// Internal plumbing is sound: each map has at most one entry per URL.
    pub closed spec fn wf(&self) -> bool {
        distinct_keys(self.state_map@) && distinct_keys(self.wait_map@)
    }

    /// A fresh cache.
    pub fn new() -> (cache: ImageCache)
        ensures
            cache.wf(),
            cache@ == initial_model(),
    {
        let cache = ImageCache {
            state_map: Vec::new(),
            wait_map: Vec::new(),
            need_exit: None,
            observers: Vec::new(),
        };
        proof {
            assert(cache@.states =~= initial_model().states);
            assert(cache@.waiters =~= initial_model().waiters);
        }
        cache
    }

    /// Index of the state entry for `url`, if one exists.
    fn position_of_state(&self, url: Url) -> (r: Option<usize>)
        ensures
            match r {
                Some(i) => i < self.state_map@.len() && self.state_map@[i as int].0 == url,
                None => forall|j: int|
                    0 <= j < self.state_map@.len() ==> (#[trigger] self.state_map@[j]).0 != url,
            },
    {
        let mut i: usize = 0;
        while i < self.state_map.len()
            invariant
                i <= self.state_map@.len(),
                forall|j: int| 0 <= j < i ==> (#[trigger] self.state_map@[j]).0 != url,
            decreases self.state_map@.len() - i,
        {
            if self.state_map[i].0 == url {
                return Some(i);
            }
            i = i + 1;
        }
        None
    }

    /// Index of the waiter entry for `url`, if one exists.
    fn position_of_waiters(&self, url: Url) -> (r: Option<usize>)
        ensures
            match r {
                Some(i) => i < self.wait_map@.len() && self.wait_map@[i as int].0 == url,
                None => forall|j: int|
                    0 <= j < self.wait_map@.len() ==> (#[trigger] self.wait_map@[j]).0 != url,
            },
    {
        let mut i: usize = 0;
        while i < self.wait_map.len()
            invariant
                i <= self.wait_map@.len(),
                forall|j: int| 0 <= j < i ==> (#[trigger] self.wait_map@[j]).0 != url,
            decreases self.wait_map@.len() - i,
        {
            if self.wait_map[i].0 == url {
                return Some(i);
            }
            i = i + 1;
        }
        None
    }

    /// Current state of `url`, moved out; the slot is left at `Init`.
    fn take_state(&mut self, url: Url) -> (st: ImageState)
        requires
            old(self).wf(),
        ensures
            final(self).wf(),
            st@ == old(self)@.states[url],
            final(self)@.states == old(self)@.states.insert(url, StateModel::Init),
            final(self)@.waiters == old(self)@.waiters,
            final(self)@.pending_exit == old(self)@.pending_exit,
            final(self)@.observers == old(self)@.observers,
    {
        let r = self.position_of_state(url);
        match r {
            Some(i) => {
                let ghost entries = self.state_map@;
                let slot = &mut self.state_map[i];
                let mut taken = ImageState::Init;
                std::mem::swap(&mut slot.1, &mut taken);
                proof {
                    assert(self.state_map@ =~= entries.update(
                        i as int,
                        (entries[i as int].0, ImageState::Init),
                    ));
                    lemma_lookup_state_present(entries, url, i as int);
                    assert forall|v: Url| true implies #[trigger] lookup_state(
                        self.state_map@,
                        v,
                    ) == (if v == url {
                        StateModel::Init
                    } else {
                        lookup_state(entries, v)
                    }) by {
                        lemma_lookup_state_update(entries, i as int, ImageState::Init, v);
                    }
                    assert(final(self)@.states =~= old(self)@.states.insert(
                        url,
                        StateModel::Init,
                    ));
                    assert(final(self)@.waiters =~= old(self)@.waiters);
                }
                taken
            },
            None => {
                proof {
                    lemma_lookup_state_absent(self.state_map@, url);
                    assert(final(self)@.states =~= old(self)@.states.insert(
                        url,
                        StateModel::Init,
                    ));
                }
                ImageState::Init
            },
        }
    }

    /// Record `st` as the state of `url`.
    fn set_state(&mut self, url: Url, st: ImageState)
        requires
            old(self).wf(),
        ensures
            final(self).wf(),
            final(self)@.states == old(self)@.states.insert(url, st@),
            final(self)@.waiters == old(self)@.waiters,
            final(self)@.pending_exit == old(self)@.pending_exit,
            final(self)@.observers == old(self)@.observers,
    {
        let r = self.position_of_state(url);
        match r {
            Some(i) => {
                let ghost entries = self.state_map@;
                let ghost stv = st@;
                let slot = &mut self.state_map[i];
                slot.1 = st;
                proof {
                    assert(self.state_map@ =~= entries.update(
                        i as int,
                        (entries[i as int].0, slot.1),
                    ));
                    assert forall|v: Url| true implies #[trigger] lookup_state(
                        self.state_map@,
                        v,
                    ) == (if v == url {
                        stv
                    } else {
                        lookup_state(entries, v)
                    }) by {
                        lemma_lookup_state_update(entries, i as int, slot.1, v);
                    }
                    assert(final(self)@.states =~= old(self)@.states.insert(url, stv));
                    assert(final(self)@.waiters =~= old(self)@.waiters);
                }
            },
            None => {
                let ghost entries = self.state_map@;
                let ghost stv = st@;
                self.state_map.push((url, st));
                proof {
                    assert(self.state_map@.drop_last() =~= entries);
                    assert forall|v: Url| v != url implies #[trigger] lookup_state(
                        self.state_map@,
                        v,
                    ) == lookup_state(entries, v) by {}
                    assert(lookup_state(self.state_map@, url) == stv);
                    assert(final(self)@.states =~= old(self)@.states.insert(url, stv));
                    assert(final(self)@.waiters =~= old(self)@.waiters);
                }
            },
        }
    }

    /// Enroll `reply` as a waiter of `url`.
    fn enroll_waiter(&mut self, url: Url, reply: ReplyTo)
        requires
            old(self).wf(),
        ensures
            final(self).wf(),
            final(self)@.waiters == old(self)@.waiters.insert(
                url,
                old(self)@.waiters[url].push(reply),
            ),
            final(self)@.states == old(self)@.states,
            final(self)@.pending_exit == old(self)@.pending_exit,
            final(self)@.observers == old(self)@.observers,
    {
        let r = self.position_of_waiters(url);
        match r {
            Some(i) => {
                let ghost entries = self.wait_map@;
                let slot = &mut self.wait_map[i];
                slot.1.push(reply);
                proof {
                    lemma_lookup_waiters_present(entries, url, i as int);
                    assert(self.wait_map@ =~= entries.update(
                        i as int,
                        (entries[i as int].0, slot.1),
                    ));
                    assert forall|v: Url| true implies #[trigger] lookup_waiters(
                        self.wait_map@,
                        v,
                    ) == (if v == url {
                        old(self)@.waiters[url].push(reply)
                    } else {
                        lookup_waiters(entries, v)
                    }) by {
                        lemma_lookup_waiters_update(entries, i as int, slot.1, v);
                    }
                    assert(final(self)@.waiters =~= old(self)@.waiters.insert(
                        url,
                        old(self)@.waiters[url].push(reply),
                    ));
                    assert(final(self)@.states =~= old(self)@.states);
                }
            },
            None => {
                let ghost entries = self.wait_map@;
                let mut fresh: Vec<ReplyTo> = Vec::new();
                fresh.push(reply);
                let ghost freshv = fresh@;
                self.wait_map.push((url, fresh));
                proof {
                    lemma_lookup_waiters_absent(entries, url);
                    assert(self.wait_map@.drop_last() =~= entries);
                    assert(lookup_waiters(self.wait_map@, url) == freshv);
                    assert(freshv =~= old(self)@.waiters[url].push(reply));
                    assert(final(self)@.waiters =~= old(self)@.waiters.insert(
                        url,
                        old(self)@.waiters[url].push(reply),
                    ));
                    assert(final(self)@.states =~= old(self)@.states);
                }
            },
        }
    }

    /// Detach and return every waiter of `url`.
    fn take_waiters(&mut self, url: Url) -> (ws: Vec<ReplyTo>)
        requires
            old(self).wf(),
        ensures
            final(self).wf(),
            ws@ == old(self)@.waiters[url],
            final(self)@.waiters == old(self)@.waiters.insert(url, Seq::<ReplyTo>::empty()),
            final(self)@.states == old(self)@.states,
            final(self)@.pending_exit == old(self)@.pending_exit,
            final(self)@.observers == old(self)@.observers,
    {
        let r = self.position_of_waiters(url);
        match r {
            Some(i) => {
                let ghost entries = self.wait_map@;
                let slot = &mut self.wait_map[i];
                let mut taken: Vec<ReplyTo> = Vec::new();
                std::mem::swap(&mut slot.1, &mut taken);
                proof {
                    lemma_lookup_waiters_present(entries, url, i as int);
                    assert(self.wait_map@ =~= entries.update(
                        i as int,
                        (entries[i as int].0, slot.1),
                    ));
                    assert forall|v: Url| true implies #[trigger] lookup_waiters(
                        self.wait_map@,
                        v,
                    ) == (if v == url {
                        Seq::<ReplyTo>::empty()
                    } else {
                        lookup_waiters(entries, v)
                    }) by {
                        lemma_lookup_waiters_update(entries, i as int, slot.1, v);
                        assert(slot.1@ =~= Seq::<ReplyTo>::empty());
                    }
                    assert(final(self)@.waiters =~= old(self)@.waiters.insert(
                        url,
                        Seq::<ReplyTo>::empty(),
                    ));
                    assert(final(self)@.states =~= old(self)@.states);
                }
                taken
            },
            None => {
                proof {
                    lemma_lookup_waiters_absent(self.wait_map@, url);
                    assert(final(self)@.waiters =~= old(self)@.waiters.insert(
                        url,
                        Seq::<ReplyTo>::empty(),
                    ));
                }
                Vec::new()
            },
        }
    }

    /// Serve every waiter of `url` one clone of `response`, detach them all.
    fn purge_waiters(&mut self, url: Url, response: ImageResponseMsg) -> (acts: Vec<Action>)
        requires
            old(self).wf(),
        ensures
            final(self).wf(),
            final(self)@.waiters == old(self)@.waiters.insert(url, Seq::<ReplyTo>::empty()),
            final(self)@.states == old(self)@.states,
            final(self)@.pending_exit == old(self)@.pending_exit,
            final(self)@.observers == old(self)@.observers,
            actions_model(acts@) == drain_responses(old(self)@.waiters[url], response@),
    {
        let ws = self.take_waiters(url);
        let mut acts: Vec<Action> = Vec::new();
        let mut i: usize = 0;
        while i < ws.len()
            invariant
                i <= ws@.len(),
                acts@.len() == i,
                forall|j: int|
                    0 <= j < i ==> (#[trigger] acts@[j])@ == ActionModel::Respond(
                        ws@[j],
                        response@,
                    ),
            decreases ws@.len() - i,
        {
            acts.push(Action::Respond(ws[i], response.clone()));
            i = i + 1;
        }
        proof {
            assert(actions_model(acts@) =~= drain_responses(ws@, response@));
        }
        acts
    }

    /// Begin fetching `url` if no work has begun; otherwise do nothing.
    pub fn prefetch(&mut self, url: Url) -> (acts: Vec<Action>)
        requires
            old(self).wf(),
        ensures
            final(self).wf(),
            final(self)@ == spec_prefetch(old(self)@, url).cache,
            actions_model(acts@) == spec_prefetch(old(self)@, url).actions,
    {
        let st = self.take_state(url);
        match st {
            ImageState::Init => {
                self.set_state(url, ImageState::Prefetching(AfterPrefetch::DoNotDecode));
                let mut acts: Vec<Action> = Vec::new();
                acts.push(Action::SpawnPrefetch(url));
                proof {
                    assert(final(self)@.states =~= spec_prefetch(old(self)@, url).cache.states);
                    assert(actions_model(acts@) =~= spec_prefetch(old(self)@, url).actions);
                }
                acts
            },
            other => {
                self.set_state(url, other);
                proof {
                    assert(final(self)@.states =~= old(self)@.states);
                    assert(actions_model(Seq::<Action>::empty()) =~= Seq::<ActionModel>::empty());
                }
                Vec::new()
            },
        }
    }

    /// Accept a prefetcher's report for `url`.
    pub fn store_prefetched_image_data(
        &mut self,
        url: Url,
        data: Result<Vec<u8>, ()>,
    ) -> (r: Result<Vec<Action>, Misuse>)
        requires
            old(self).wf(),
        ensures
            final(self).wf(),
            ({
                let d = spec_store_prefetched(old(self)@, url, bytes_result_model(data));
                match r {
                    Ok(acts) => d.fatal is None && final(self)@ == d.cache && actions_model(acts@)
                        == d.actions,
                    Err(e) => d.fatal == Some(e) && final(self)@ == old(self)@,
                }
            }),
    {
        let ghost d = spec_store_prefetched(old(self)@, url, bytes_result_model(data));
        let st = self.take_state(url);
        match st {
            ImageState::Prefetching(next) => match data {
                Ok(bytes) => match next {
                    AfterPrefetch::DoDecode => {
                        self.set_state(url, ImageState::Decoding);
                        let mut acts: Vec<Action> = Vec::new();
                        acts.push(Action::SpawnDecode(url, bytes));
                        proof {
                            assert(final(self)@.states =~= d.cache.states);
                            assert(actions_model(acts@) =~= d.actions);
                        }
                        Ok(acts)
                    },
                    AfterPrefetch::DoNotDecode => {
                        self.set_state(url, ImageState::Prefetched(bytes));
                        proof {
                            assert(final(self)@.states =~= d.cache.states);
                            assert(actions_model(Seq::<Action>::empty()) =~= d.actions);
                        }
                        Ok(Vec::new())
                    },
                },
                Err(_) => {
                    self.set_state(url, ImageState::Failed);
                    let acts = self.purge_waiters(url, ImageResponseMsg::ImageFailed);
                    proof {
                        assert(final(self)@.states =~= d.cache.states);
                        assert(final(self)@.waiters =~= d.cache.waiters);
                    }
                    Ok(acts)
                },
            },
            other => {
                self.set_state(url, other);
                proof {
                    assert(final(self)@.states =~= old(self)@.states);
                }
                Err(Misuse::StoreDataWrongState)
            },
        }
    }

    /// Schedule or start the decode of `url`.
    pub fn decode(&mut self, url: Url) -> (r: Result<Vec<Action>, Misuse>)
        requires
            old(self).wf(),
        ensures
            final(self).wf(),
            ({
                let d = spec_decode(old(self)@, url);
                match r {
                    Ok(acts) => d.fatal is None && final(self)@ == d.cache && actions_model(acts@)
                        == d.actions,
                    Err(e) => d.fatal == Some(e) && final(self)@ == old(self)@,
                }
            }),
    {
        let ghost d = spec_decode(old(self)@, url);
        let st = self.take_state(url);
        match st {
            ImageState::Init => {
                proof {
                    assert(final(self)@.states =~= old(self)@.states);
                }
                Err(Misuse::DecodeBeforePrefetch)
            },
            ImageState::Prefetching(next) => match next {
                AfterPrefetch::DoNotDecode => {
                    self.set_state(url, ImageState::Prefetching(AfterPrefetch::DoDecode));
                    proof {
                        assert(final(self)@.states =~= d.cache.states);
                        assert(actions_model(Seq::<Action>::empty()) =~= d.actions);
                    }
                    Ok(Vec::new())
                },
                AfterPrefetch::DoDecode => {
                    self.set_state(url, ImageState::Prefetching(AfterPrefetch::DoDecode));
                    proof {
                        assert(final(self)@.states =~= old(self)@.states);
                    }
                    Ok(Vec::new())
                },
            },
            ImageState::Prefetched(bytes) => {
                self.set_state(url, ImageState::Decoding);
                let mut acts: Vec<Action> = Vec::new();
                acts.push(Action::SpawnDecode(url, bytes));
                proof {
                    assert(final(self)@.states =~= d.cache.states);
                    assert(actions_model(acts@) =~= d.actions);
                }
                Ok(acts)
            },
            other => {
                self.set_state(url, other);
                proof {
                    assert(final(self)@.states =~= old(self)@.states);
                }
                Ok(Vec::new())
            },
        }
    }

    /// Accept a decoder's report for `url`.
    pub fn store_image(&mut self, url: Url, image: Option<Arc<Image>>) -> (r: Result<
        Vec<Action>,
        Misuse,
    >)
        requires
            old(self).wf(),
        ensures
            final(self).wf(),
            ({
                let d = spec_store_image(old(self)@, url, image_option_model(image));
                match r {
                    Ok(acts) => d.fatal is None && final(self)@ == d.cache && actions_model(acts@)
                        == d.actions,
                    Err(e) => d.fatal == Some(e) && final(self)@ == old(self)@,
                }
            }),
    {
        let ghost d = spec_store_image(old(self)@, url, image_option_model(image));
        let st = self.take_state(url);
        match st {
            ImageState::Decoding => match image {
                Some(handle) => {
                    self.set_state(url, ImageState::Decoded(clone_arc(&handle)));
                    let acts = self.purge_waiters(url, ImageResponseMsg::ImageReady(handle));
                    proof {
                        assert(final(self)@.states =~= d.cache.states);
                        assert(final(self)@.waiters =~= d.cache.waiters);
                    }
                    Ok(acts)
                },
                None => {
                    self.set_state(url, ImageState::Failed);
                    let acts = self.purge_waiters(url, ImageResponseMsg::ImageFailed);
                    proof {
                        assert(final(self)@.states =~= d.cache.states);
                        assert(final(self)@.waiters =~= d.cache.waiters);
                    }
                    Ok(acts)
                },
            },
            other => {
                self.set_state(url, other);
                proof {
                    assert(final(self)@.states =~= old(self)@.states);
                }
                Err(Misuse::StoreImageWrongState)
            },
        }
    }

    /// Answer a non-blocking query for `url` at once.
    pub fn get_image(&self, url: Url, reply: ReplyTo) -> (r: Result<Vec<Action>, Misuse>)
        requires
            self.wf(),
        ensures
            ({
                let d = spec_get_image(self@, url, reply);
                match r {
                    Ok(acts) => d.fatal is None && actions_model(acts@) == d.actions,
                    Err(e) => d.fatal == Some(e),
                }
            }),
    {
        let pos = self.position_of_state(url);
        match pos {
            None => {
                proof {
                    lemma_lookup_state_absent(self.state_map@, url);
                }
                Err(Misuse::RequestBeforePrefetch)
            },
            Some(i) => {
                proof {
                    lemma_lookup_state_present(self.state_map@, url, i as int);
                }
                match &self.state_map[i].1 {
                    ImageState::Init => Err(Misuse::RequestBeforePrefetch),
                    ImageState::Prefetching(AfterPrefetch::DoNotDecode) => Err(
                        Misuse::RequestBeforeDecode,
                    ),
                    ImageState::Prefetched(_) => Err(Misuse::RequestBeforeDecode),
                    ImageState::Prefetching(AfterPrefetch::DoDecode) => {
                        let mut acts: Vec<Action> = Vec::new();
                        acts.push(Action::Respond(reply, ImageResponseMsg::ImageNotReady));
                        proof {
                            assert(actions_model(acts@) =~= spec_get_image(
                                self@,
                                url,
                                reply,
                            ).actions);
                        }
                        Ok(acts)
                    },
                    ImageState::Decoding => {
                        let mut acts: Vec<Action> = Vec::new();
                        acts.push(Action::Respond(reply, ImageResponseMsg::ImageNotReady));
                        proof {
                            assert(actions_model(acts@) =~= spec_get_image(
                                self@,
                                url,
                                reply,
                            ).actions);
                        }
                        Ok(acts)
                    },
                    ImageState::Decoded(handle) => {
                        let mut acts: Vec<Action> = Vec::new();
                        acts.push(
                            Action::Respond(reply, ImageResponseMsg::ImageReady(clone_arc(handle))),
                        );
                        proof {
                            assert(actions_model(acts@) =~= spec_get_image(
                                self@,
                                url,
                                reply,
                            ).actions);
                        }
                        Ok(acts)
                    },
                    ImageState::Failed => {
                        let mut acts: Vec<Action> = Vec::new();
                        acts.push(Action::Respond(reply, ImageResponseMsg::ImageFailed));
                        proof {
                            assert(actions_model(acts@) =~= spec_get_image(
                                self@,
                                url,
                                reply,
                            ).actions);
                        }
                        Ok(acts)
                    },
                }
            },
        }
    }

    /// Answer a blocking query for `url`: at once if settled, else enroll.
    pub fn wait_for_image(&mut self, url: Url, reply: ReplyTo) -> (r: Result<Vec<Action>, Misuse>)
        requires
            old(self).wf(),
        ensures
            final(self).wf(),
            ({
                let d = spec_wait_for_image(old(self)@, url, reply);
                match r {
                    Ok(acts) => d.fatal is None && final(self)@ == d.cache && actions_model(acts@)
                        == d.actions,
                    Err(e) => d.fatal == Some(e) && final(self)@ == old(self)@,
                }
            }),
    {
        let ghost d = spec_wait_for_image(old(self)@, url, reply);
        let pos = self.position_of_state(url);
        match pos {
            None => {
                proof {
                    lemma_lookup_state_absent(self.state_map@, url);
                }
                return Err(Misuse::RequestBeforePrefetch);
            },
            Some(i) => {
                proof {
                    lemma_lookup_state_present(self.state_map@, url, i as int);
                }
                match &self.state_map[i].1 {
                    ImageState::Init => {
                        return Err(Misuse::RequestBeforePrefetch);
                    },
                    ImageState::Prefetching(AfterPrefetch::DoNotDecode) => {
                        return Err(Misuse::RequestBeforeDecode);
                    },
                    ImageState::Prefetched(_) => {
                        return Err(Misuse::RequestBeforeDecode);
                    },
                    ImageState::Decoded(handle) => {
                        let mut acts: Vec<Action> = Vec::new();
                        acts.push(
                            Action::Respond(reply, ImageResponseMsg::ImageReady(clone_arc(handle))),
                        );
                        proof {
                            assert(actions_model(acts@) =~= d.actions);
                        }
                        return Ok(acts);
                    },
                    ImageState::Failed => {
                        let mut acts: Vec<Action> = Vec::new();
                        acts.push(Action::Respond(reply, ImageResponseMsg::ImageFailed));
                        proof {
                            assert(actions_model(acts@) =~= d.actions);
                        }
                        return Ok(acts);
                    },
                    _ => {},
                }
            },
        }
        self.enroll_waiter(url, reply);
        proof {
            assert(actions_model(Seq::<Action>::empty()) =~= d.actions);
        }
        Ok(Vec::new())
    }

    /// No worker is out for any URL: the shutdown gate may open.
    pub fn can_exit(&self) -> (r: bool)
        requires
            self.wf(),
        ensures
            r == self@.quiescent(),
    {
        let mut i: usize = 0;
        while i < self.state_map.len()
            invariant
                self.wf(),
                i <= self.state_map@.len(),
                forall|j: int| 0 <= j < i ==> !(#[trigger] self.state_map@[j]).1@.is_transient(),
            decreases self.state_map@.len() - i,
        {
            match &self.state_map[i].1 {
                ImageState::Prefetching(_) => {
                    proof {
                        lemma_lookup_state_present(
                            self.state_map@,
                            self.state_map@[i as int].0,
                            i as int,
                        );
                        assert(self@.states[self.state_map@[i as int].0].is_transient());
                    }
                    return false;
                },
                ImageState::Decoding => {
                    proof {
                        lemma_lookup_state_present(
                            self.state_map@,
                            self.state_map@[i as int].0,
                            i as int,
                        );
                        assert(self@.states[self.state_map@[i as int].0].is_transient());
                    }
                    return false;
                },
                _ => {},
            }
            i = i + 1;
        }
        proof {
            assert forall|u: Url| !(#[trigger] self@.states[u]).is_transient() by {
                lemma_lookup_state_is_entry(self.state_map@, u);
            }
        }
        true
    }

    /// Receive one message: notify the observers, dispatch it, then the
    /// shutdown gate. The returned actions are performed by the driver in
    /// order; `done` says the actor stops. A protocol violation comes back
    /// as `Err` with the cache untouched; a faithful driver aborts on it.
    pub fn process(&mut self, msg: Msg) -> (r: Result<Step, Misuse>)
        requires
            old(self).wf(),
        ensures
            final(self).wf(),
            ({
                let sm = spec_step(old(self)@, msg@);
                match r {
                    Ok(step) => sm.fatal is None && final(self)@ == sm.cache && actions_model(
                        step.actions@,
                    ) == sm.actions && step.done == sm.stop,
                    Err(e) => sm.fatal == Some(e) && final(self)@ == old(self)@,
                }
            }),
    {
        let ghost c0 = old(self)@;
        let ghost sm = spec_step(old(self)@, msg@);
        let mut acts: Vec<Action> = Vec::new();
        let mut i: usize = 0;
        while i < self.observers.len()
            invariant
                i <= self.observers@.len(),
                acts@.len() == i,
                forall|j: int|
                    0 <= j < i ==> (#[trigger] acts@[j])@ == ActionModel::Notify(
                        self.observers@[j],
                    ),
                self == old(self),
            decreases self.observers@.len() - i,
        {
            acts.push(Action::Notify(self.observers[i]));
            i = i + 1;
        }
        proof {
            assert(actions_model(acts@) =~= notifications(c0));
        }
        let dispatched: Result<Vec<Action>, Misuse> = match msg {
            Msg::Prefetch(url) => Ok(self.prefetch(url)),
            Msg::StorePrefetchedImageData(url, data) => self.store_prefetched_image_data(
                url,
                data,
            ),
            Msg::Decode(url) => self.decode(url),
            Msg::StoreImage(url, image) => self.store_image(url, image),
            Msg::GetImage(url, reply) => self.get_image(url, reply),
            Msg::WaitForImage(url, reply) => self.wait_for_image(url, reply),
            Msg::OnMsg(observer) => {
                self.observers.push(observer);
                proof {
                    assert(self@.states =~= c0.states);
                    assert(self@.waiters =~= c0.waiters);
                }
                Ok(Vec::new())
            },
            Msg::Exit(reply) => {
                if self.need_exit.is_some() {
                    Err(Misuse::ExitAlreadyPending)
                } else {
                    self.need_exit = Some(reply);
                    proof {
                        assert(self@.states =~= c0.states);
                        assert(self@.waiters =~= c0.waiters);
                    }
                    Ok(Vec::new())
                }
            },
        };
        let ghost d = spec_dispatch(c0, msg@);
        match dispatched {
            Err(e) => Err(e),
            Ok(mut dacts) => {
                acts.append(&mut dacts);
                proof {
                    assert(actions_model(acts@) =~= notifications(c0) + d.actions);
                }
                let mut done = false;
                match self.need_exit {
                    Some(reply) => {
                        if self.can_exit() {
                            self.need_exit = None;
                            acts.push(Action::AckExit(reply));
                            done = true;
                            proof {
                                assert(final(self)@.states =~= d.cache.states);
                                assert(final(self)@.waiters =~= d.cache.waiters);
                                assert(actions_model(acts@) =~= sm.actions);
                            }
                        }
                    },
                    None => {},
                }
                Ok(Step { actions: acts, done })
            },
        }
    }
}

/// What the driver does after one message: perform `actions` in order, and
/// stop the receive loop if `done`.
#[derive(Debug)]
pub struct Step {
    pub actions: Vec<Action>,
    pub done: bool,
}

} // verus!
