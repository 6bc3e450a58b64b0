//! Guarantees of the cache protocol, stated over whole message traces.
//!
//! [`run_from`] replays a sequence of messages through [`spec_step`], the
//! specification that every exec method of [`crate::ImageCache`] is proved
//! against. The public proof functions here state what the actor promises
//! its surroundings: one fetch and one decode per URL, one response per
//! reply channel, waiters served at settlement, and silence after the
//! acknowledged exit.

use crate::cache::drain_responses;
use crate::cache::initial_model;
use crate::cache::notifications;
use crate::cache::spec_dispatch;
use crate::cache::spec_step;
use crate::cache::CacheModel;
use crate::msgs::ActionModel;
use crate::msgs::MsgModel;
use crate::msgs::ReplyTo;
use crate::msgs::ResponseModel;
use crate::msgs::Url;
use crate::state::StateModel;
use vstd::prelude::*;

verus! {

/// What replaying a message sequence produces: the cache it ends in, every
/// action emitted along the way, and whether the actor halted (acknowledged
/// exit or died on a protocol violation) before the sequence ran out.
pub struct TraceModel {
    pub cache: CacheModel,
    pub actions: Seq<ActionModel>,
    pub halted: bool,
}

/// Replay `msgs` from `c`, one [`spec_step`] per message.
///
/// A violation halts the actor with nothing emitted for that message; an
/// acknowledged exit halts it after the acknowledging step. Either way the
/// remaining messages go unprocessed.
pub open spec fn run_from(c: CacheModel, msgs: Seq<MsgModel>) -> TraceModel
    decreases msgs.len(),
{
    if msgs.len() == 0 {
        TraceModel { cache: c, actions: Seq::empty(), halted: false }
    } else {
        let st = spec_step(c, msgs[0]);
        if st.fatal is Some {
            TraceModel { cache: c, actions: Seq::empty(), halted: true }
        } else if st.stop {
            TraceModel { cache: st.cache, actions: st.actions, halted: true }
        } else {
            let rest = run_from(st.cache, msgs.drop_first());
            TraceModel {
                cache: rest.cache,
                actions: st.actions + rest.actions,
                halted: rest.halted,
            }
        }
    }
}

/// How many actions of `acts` satisfy `p`.
pub open spec fn count_matching(acts: Seq<ActionModel>, p: spec_fn(ActionModel) -> bool) -> nat
    decreases acts.len(),
{
    if acts.len() == 0 {
        0
    } else {
        (if p(acts[0]) {
            1nat
        } else {
            0nat
        }) + count_matching(acts.drop_first(), p)
    }
}

/// How many times the driver is told to `Load` `u` from the resource
/// service.
pub open spec fn loads_for(acts: Seq<ActionModel>, u: Url) -> nat {
    count_matching(acts, |a: ActionModel| a == ActionModel::SpawnPrefetch(u))
}

/// How many times the driver is told to start a decoder for `u`.
pub open spec fn decodes_for(acts: Seq<ActionModel>, u: Url) -> nat {
    count_matching(acts, |a: ActionModel| a matches ActionModel::SpawnDecode(v, _) && v == u)
}

/// How many responses are sent on reply channel `r`.
pub open spec fn responses_for(acts: Seq<ActionModel>, r: ReplyTo) -> nat {
    count_matching(acts, |a: ActionModel| a matches ActionModel::Respond(w, _) && w == r)
}

proof fn lemma_count_matching_add(a: Seq<ActionModel>, b: Seq<ActionModel>, p: spec_fn(ActionModel) -> bool)
    ensures
        count_matching(a + b, p) == count_matching(a, p) + count_matching(b, p),
    decreases a.len(),
{
    if a.len() == 0 {
        assert(a + b =~= b);
    } else {
        assert((a + b).drop_first() =~= a.drop_first() + b);
        lemma_count_matching_add(a.drop_first(), b, p);
    }
}

proof fn lemma_count_matching_zero(a: Seq<ActionModel>, p: spec_fn(ActionModel) -> bool)
    requires
        forall|j: int| 0 <= j < a.len() ==> !p(#[trigger] a[j]),
    ensures
        count_matching(a, p) == 0,
    decreases a.len(),
{
    if a.len() > 0 {
        lemma_count_matching_zero(a.drop_first(), p);
    }
}

proof fn lemma_count_matching_one(x: ActionModel, p: spec_fn(ActionModel) -> bool)
    ensures
        count_matching(seq![x], p) == if p(x) {
            1nat
        } else {
            0nat
        },
{
    let s = seq![x];
    assert(s.drop_first() =~= Seq::<ActionModel>::empty());
    assert(count_matching(s.drop_first(), p) == 0);
    assert(count_matching(s, p) == (if p(s[0]) {
        1nat
    } else {
        0nat
    }) + count_matching(s.drop_first(), p));
}

/// No observer notification matches a load, decode, response or exit count.
proof fn lemma_count_matching_notifications(c: CacheModel, p: spec_fn(ActionModel) -> bool)
    requires
        forall|a: ActionModel| a is Notify ==> !(#[trigger] p(a)),
    ensures
        count_matching(notifications(c), p) == 0,
{
    lemma_count_matching_zero(notifications(c), p);
}

/// Every action a dispatch emits concerns the message itself: a spawn or a
/// response, never an observer notification and never an exit
/// acknowledgement.
proof fn lemma_dispatch_action_kinds(c: CacheModel, m: MsgModel)
    ensures
        forall|j: int|
            0 <= j < spec_dispatch(c, m).actions.len() ==> {
                let a = #[trigger] spec_dispatch(c, m).actions[j];
                a is SpawnPrefetch || a is SpawnDecode || a is Respond
            },
{
    let acts = spec_dispatch(c, m).actions;
    assert forall|j: int| 0 <= j < acts.len() implies {
        let a = #[trigger] acts[j];
        a is SpawnPrefetch || a is SpawnDecode || a is Respond
    } by {
        match m {
            MsgModel::StorePrefetchedImageData(u, data) => {
                if c.states[u] matches StateModel::Prefetching(_) && data is Err {
                    assert(acts =~= drain_responses(c.waiters[u], ResponseModel::Failed));
                }
            },
            MsgModel::StoreImage(u, image) => {
                if c.states[u] is Decoding {
                    match image {
                        Some(im) => {
                            assert(acts =~= drain_responses(
                                c.waiters[u],
                                ResponseModel::Ready(im),
                            ));
                        },
                        None => {
                            assert(acts =~= drain_responses(c.waiters[u], ResponseModel::Failed));
                        },
                    }
                }
            },
            _ => {},
        }
    }
}

/// The actor stops exactly when it acknowledges the exit: a step's actions
/// hold an `AckExit` if and only if that step ends the receive loop.
pub proof fn lemma_ack_is_stop(c: CacheModel, m: MsgModel)
    requires
        spec_step(c, m).fatal is None,
    ensures
        (exists|j: int|
            0 <= j < spec_step(c, m).actions.len() && (#[trigger] spec_step(
                c,
                m,
            ).actions[j]) is AckExit) <==> spec_step(c, m).stop,
{
    let st = spec_step(c, m);
    let note = notifications(c);
    let d = spec_dispatch(c, m);
    lemma_dispatch_action_kinds(c, m);
    if st.stop {
        let k = note.len() + d.actions.len();
        assert(st.actions[k as int] is AckExit);
    } else {
        assert(st.actions =~= note + d.actions);
        assert forall|j: int| 0 <= j < st.actions.len() implies !((#[trigger] st.actions[j]) is AckExit) by {
            if j < note.len() {
                assert(st.actions[j] == note[j]);
                assert(note[j] is Notify);
            } else {
                assert(st.actions[j] == d.actions[j - note.len()]);
            }
        }
    }
}

/// Once a run has halted, further messages change nothing and emit nothing.
///
/// Together with [`lemma_ack_is_stop`] this says that after the exit is
/// acknowledged no message is processed any more.
pub proof fn lemma_no_processing_after_halt(c: CacheModel, msgs: Seq<MsgModel>, more: Seq<MsgModel>)
    requires
        run_from(c, msgs).halted,
    ensures
        run_from(c, msgs + more) == run_from(c, msgs),
    decreases msgs.len(),
{
    if msgs.len() == 0 {
    } else {
        let st = spec_step(c, msgs[0]);
        assert((msgs + more)[0] == msgs[0]);
        if st.fatal is Some {
        } else if st.stop {
        } else {
            assert((msgs + more).drop_first() =~= msgs.drop_first() + more);
            lemma_no_processing_after_halt(st.cache, msgs.drop_first(), more);
            assert(run_from(c, msgs + more).actions =~= run_from(c, msgs).actions);
        }
    }
}

/// Splitting a run: while the first part has not halted, replaying the
/// concatenation is replaying the parts in turn.
pub proof fn lemma_run_append(c: CacheModel, a: Seq<MsgModel>, b: Seq<MsgModel>)
    requires
        !run_from(c, a).halted,
    ensures
        run_from(c, a + b).cache == run_from(run_from(c, a).cache, b).cache,
        run_from(c, a + b).actions == run_from(c, a).actions + run_from(
            run_from(c, a).cache,
            b,
        ).actions,
        run_from(c, a + b).halted == run_from(run_from(c, a).cache, b).halted,
    decreases a.len(),
{
    if a.len() == 0 {
        assert(a + b =~= b);
        assert(run_from(c, a).actions + run_from(run_from(c, a).cache, b).actions =~= run_from(
            c,
            b,
        ).actions);
    } else {
        let st = spec_step(c, a[0]);
        assert((a + b)[0] == a[0]);
        assert((a + b).drop_first() =~= a.drop_first() + b);
        lemma_run_append(st.cache, a.drop_first(), b);
        let mid = run_from(c, a).cache;
        assert(run_from(c, a + b).actions =~= run_from(c, a).actions + run_from(
            mid,
            b,
        ).actions);
    }
}

/// Waiters exist only for a URL that is on its way to a decode: one in
/// `Prefetching(DoDecode)` or `Decoding`. Settlement always clears them.
pub open spec fn waiters_inv(c: CacheModel) -> bool {
    forall|u: Url| (#[trigger] c.waiters[u]).len() > 0 ==> c.states[u].accepts_waiters()
}

/// A fresh cache holds no waiters.
pub proof fn lemma_initial_waiters_inv()
    ensures
        waiters_inv(initial_model()),
{
}

/// Processing any message preserves the waiter invariant.
pub proof fn lemma_step_preserves_waiters_inv(c: CacheModel, m: MsgModel)
    requires
        waiters_inv(c),
        spec_step(c, m).fatal is None,
    ensures
        waiters_inv(spec_step(c, m).cache),
{
    let d = spec_dispatch(c, m);
    assert forall|u: Url| (#[trigger] d.cache.waiters[u]).len() > 0 implies d.cache.states[u].accepts_waiters() by {
        match m {
            MsgModel::Prefetch(v) => {},
            MsgModel::StorePrefetchedImageData(v, data) => {},
            MsgModel::Decode(v) => {},
            MsgModel::StoreImage(v, image) => {},
            MsgModel::GetImage(v, reply) => {},
            MsgModel::WaitForImage(v, reply) => {},
            MsgModel::OnMsg(o) => {},
            MsgModel::Exit(reply) => {},
        }
    }
    assert(spec_step(c, m).cache.waiters == d.cache.waiters);
    assert(spec_step(c, m).cache.states == d.cache.states);
}

/// A whole run preserves the waiter invariant.
pub proof fn lemma_run_preserves_waiters_inv(c: CacheModel, msgs: Seq<MsgModel>)
    requires
        waiters_inv(c),
    ensures
        waiters_inv(run_from(c, msgs).cache),
    decreases msgs.len(),
{
    if msgs.len() > 0 {
        let st = spec_step(c, msgs[0]);
        if st.fatal is Some {
        } else {
            lemma_step_preserves_waiters_inv(c, msgs[0]);
            if !st.stop {
                lemma_run_preserves_waiters_inv(st.cache, msgs.drop_first());
            }
        }
    }
}

/// One fetch is owed for a URL still at `Init`, none once work has begun:
/// no transition ever returns a URL to `Init`.
pub open spec fn fetch_credit(s: StateModel) -> nat {
    if s is Init {
        1
    } else {
        0
    }
}

/// One decode is owed before the decoder has started, none from `Decoding`
/// on: `Decoding`, `Decoded` and `Failed` never step back.
pub open spec fn decode_credit(s: StateModel) -> nat {
    match s {
        StateModel::Init => 1,
        StateModel::Prefetching(_) => 1,
        StateModel::Prefetched(_) => 1,
        StateModel::Decoding => 0,
        StateModel::Decoded(_) => 0,
        StateModel::Failed => 0,
    }
}

proof fn lemma_step_loads(c: CacheModel, m: MsgModel, u: Url)
    requires
        spec_step(c, m).fatal is None,
    ensures
        loads_for(spec_step(c, m).actions, u) + fetch_credit(spec_step(c, m).cache.states[u])
            <= fetch_credit(c.states[u]),
{
    let st = spec_step(c, m);
    let note = notifications(c);
    let d = spec_dispatch(c, m);
    let p = |a: ActionModel| a == ActionModel::SpawnPrefetch(u);
    lemma_count_matching_notifications(c, p);
    lemma_count_matching_add(note, d.actions, p);
    if st.stop {
        assert(st.actions =~= (note + d.actions) + seq![ActionModel::AckExit(st.actions.last()->AckExit_0)]);
        lemma_count_matching_add(note + d.actions, seq![st.actions.last()], p);
        lemma_count_matching_one(st.actions.last(), p);
    } else {
        assert(st.actions =~= note + d.actions);
    }
    match m {
        MsgModel::Prefetch(v) => {
            if c.states[v] is Init {
                lemma_count_matching_one(ActionModel::SpawnPrefetch(v), p);
                assert(d.actions =~= seq![ActionModel::SpawnPrefetch(v)]);
            } else {
                lemma_count_matching_zero(d.actions, p);
            }
        },
        _ => {
            lemma_dispatch_action_kinds(c, m);
            assert forall|j: int| 0 <= j < d.actions.len() implies !p(#[trigger] d.actions[j]) by {
                match m {
                    MsgModel::StorePrefetchedImageData(v, data) => {},
                    MsgModel::Decode(v) => {},
                    MsgModel::StoreImage(v, image) => {},
                    MsgModel::GetImage(v, reply) => {},
                    MsgModel::WaitForImage(v, reply) => {},
                    MsgModel::OnMsg(o) => {},
                    MsgModel::Exit(reply) => {},
                    _ => {},
                }
            }
            lemma_count_matching_zero(d.actions, p);
        },
    }
}

proof fn lemma_run_loads(c: CacheModel, msgs: Seq<MsgModel>, u: Url)
    ensures
        loads_for(run_from(c, msgs).actions, u) + fetch_credit(run_from(c, msgs).cache.states[u])
            <= fetch_credit(c.states[u]),
    decreases msgs.len(),
{
    let t = run_from(c, msgs);
    let p = |a: ActionModel| a == ActionModel::SpawnPrefetch(u);
    if msgs.len() == 0 {
        lemma_count_matching_zero(t.actions, p);
    } else {
        let st = spec_step(c, msgs[0]);
        if st.fatal is Some {
            lemma_count_matching_zero(t.actions, p);
        } else if st.stop {
            lemma_step_loads(c, msgs[0], u);
        } else {
            lemma_step_loads(c, msgs[0], u);
            lemma_run_loads(st.cache, msgs.drop_first(), u);
            lemma_count_matching_add(st.actions, run_from(st.cache, msgs.drop_first()).actions, p);
        }
    }
}

/// However a consumer drives the cache, the resource service is asked to
/// load any one URL at most once: later `Prefetch`es of it are absorbed.
pub proof fn lemma_load_at_most_once(msgs: Seq<MsgModel>, u: Url)
    ensures
        loads_for(run_from(initial_model(), msgs).actions, u) <= 1,
{
    lemma_run_loads(initial_model(), msgs, u);
}

proof fn lemma_step_decodes(c: CacheModel, m: MsgModel, u: Url)
    requires
        spec_step(c, m).fatal is None,
    ensures
        decodes_for(spec_step(c, m).actions, u) + decode_credit(spec_step(c, m).cache.states[u])
            <= decode_credit(c.states[u]),
{
    let st = spec_step(c, m);
    let note = notifications(c);
    let d = spec_dispatch(c, m);
    let p = |a: ActionModel| a matches ActionModel::SpawnDecode(v, _) && v == u;
    lemma_count_matching_notifications(c, p);
    lemma_count_matching_add(note, d.actions, p);
    if st.stop {
        assert(st.actions =~= (note + d.actions) + seq![st.actions.last()]);
        lemma_count_matching_add(note + d.actions, seq![st.actions.last()], p);
        lemma_count_matching_one(st.actions.last(), p);
    } else {
        assert(st.actions =~= note + d.actions);
    }
    match m {
        MsgModel::Decode(v) => {
            if v == u && c.states[u] is Prefetched {
                let bytes = c.states[u]->Prefetched_0;
                assert(d.actions =~= seq![ActionModel::SpawnDecode(u, bytes)]);
                lemma_count_matching_one(ActionModel::SpawnDecode(u, bytes), p);
            } else {
                assert forall|j: int| 0 <= j < d.actions.len() implies !p(
                    #[trigger] d.actions[j],
                ) by {}
                lemma_count_matching_zero(d.actions, p);
            }
        },
        MsgModel::StorePrefetchedImageData(v, data) => {
            if v == u && c.states[u] == StateModel::Prefetching(
                crate::state::AfterPrefetch::DoDecode,
            ) && data is Ok {
                assert(d.actions =~= seq![ActionModel::SpawnDecode(u, data->Ok_0)]);
                lemma_count_matching_one(ActionModel::SpawnDecode(u, data->Ok_0), p);
            } else {
                assert forall|j: int| 0 <= j < d.actions.len() implies !p(
                    #[trigger] d.actions[j],
                ) by {
                    if c.states[v] matches StateModel::Prefetching(_) && data is Err {
                        assert(d.actions =~= drain_responses(
                            c.waiters[v],
                            ResponseModel::Failed,
                        ));
                    }
                }
                lemma_count_matching_zero(d.actions, p);
            }
        },
        _ => {
            lemma_dispatch_action_kinds(c, m);
            assert forall|j: int| 0 <= j < d.actions.len() implies !p(#[trigger] d.actions[j]) by {
                match m {
                    MsgModel::Prefetch(v) => {},
                    MsgModel::StoreImage(v, image) => {
                        if c.states[v] is Decoding {
                            match image {
                                Some(im) => {
                                    assert(d.actions =~= drain_responses(
                                        c.waiters[v],
                                        ResponseModel::Ready(im),
                                    ));
                                },
                                None => {
                                    assert(d.actions =~= drain_responses(
                                        c.waiters[v],
                                        ResponseModel::Failed,
                                    ));
                                },
                            }
                        }
                    },
                    MsgModel::GetImage(v, reply) => {},
                    MsgModel::WaitForImage(v, reply) => {},
                    MsgModel::OnMsg(o) => {},
                    MsgModel::Exit(reply) => {},
                    _ => {},
                }
            }
            lemma_count_matching_zero(d.actions, p);
        },
    }
}

proof fn lemma_run_decodes(c: CacheModel, msgs: Seq<MsgModel>, u: Url)
    ensures
        decodes_for(run_from(c, msgs).actions, u) + decode_credit(
            run_from(c, msgs).cache.states[u],
        ) <= decode_credit(c.states[u]),
    decreases msgs.len(),
{
    let t = run_from(c, msgs);
    let p = |a: ActionModel| a matches ActionModel::SpawnDecode(v, _) && v == u;
    if msgs.len() == 0 {
        lemma_count_matching_zero(t.actions, p);
    } else {
        let st = spec_step(c, msgs[0]);
        if st.fatal is Some {
            lemma_count_matching_zero(t.actions, p);
        } else if st.stop {
            lemma_step_decodes(c, msgs[0], u);
        } else {
            lemma_step_decodes(c, msgs[0], u);
            lemma_run_decodes(st.cache, msgs.drop_first(), u);
            lemma_count_matching_add(st.actions, run_from(st.cache, msgs.drop_first()).actions, p);
        }
    }
}

/// However a consumer drives the cache, the decoder runs at most once per
/// URL: a settled or running decode absorbs every later request.
pub proof fn lemma_decode_at_most_once(msgs: Seq<MsgModel>, u: Url)
    ensures
        decodes_for(run_from(initial_model(), msgs).actions, u) <= 1,
{
    lemma_run_decodes(initial_model(), msgs, u);
}

/// How many entries of a waiter list name reply channel `r`.
pub open spec fn count_in(ws: Seq<ReplyTo>, r: ReplyTo) -> nat
    decreases ws.len(),
{
    if ws.len() == 0 {
        0
    } else {
        (if ws[0] == r {
            1nat
        } else {
            0nat
        }) + count_in(ws.drop_first(), r)
    }
}

proof fn lemma_count_in_push(ws: Seq<ReplyTo>, x: ReplyTo, r: ReplyTo)
    ensures
        count_in(ws.push(x), r) == count_in(ws, r) + (if x == r {
            1nat
        } else {
            0nat
        }),
    decreases ws.len(),
{
    if ws.len() == 0 {
        assert(ws.push(x)[0] == x);
        assert(ws.push(x).drop_first() =~= Seq::<ReplyTo>::empty());
        assert(count_in(ws.push(x).drop_first(), r) == 0);
    } else {
        assert(ws.push(x)[0] == ws[0]);
        assert(ws.push(x).drop_first() =~= ws.drop_first().push(x));
        lemma_count_in_push(ws.drop_first(), x, r);
    }
}

proof fn lemma_count_in_contains(ws: Seq<ReplyTo>, r: ReplyTo)
    ensures
        (count_in(ws, r) == 0) <==> !ws.contains(r),
    decreases ws.len(),
{
    if ws.len() > 0 {
        lemma_count_in_contains(ws.drop_first(), r);
        if ws[0] == r {
            assert(ws.contains(r));
        } else {
            if ws.contains(r) {
                let j = choose|j: int| 0 <= j < ws.len() && ws[j] == r;
                assert(ws.drop_first()[j - 1] == r);
                assert(ws.drop_first().contains(r));
            }
            if ws.drop_first().contains(r) {
                let j = choose|j: int| 0 <= j < ws.drop_first().len() && ws.drop_first()[j] == r;
                assert(ws[j + 1] == r);
                assert(ws.contains(r));
            }
        }
    }
}

/// Draining a waiter list sends `r` as many responses as the list holds
/// entries for `r`.
proof fn lemma_responses_drain(ws: Seq<ReplyTo>, rsp: ResponseModel, r: ReplyTo)
    ensures
        responses_for(drain_responses(ws, rsp), r) == count_in(ws, r),
    decreases ws.len(),
{
    if ws.len() == 0 {
    } else {
        assert(drain_responses(ws, rsp).drop_first() =~= drain_responses(ws.drop_first(), rsp));
        lemma_responses_drain(ws.drop_first(), rsp, r);
        assert(drain_responses(ws, rsp)[0] == ActionModel::Respond(ws[0], rsp));
    }
}

/// The message is a query carrying reply channel `r`.
pub open spec fn is_query_for(m: MsgModel, r: ReplyTo) -> bool {
    match m {
        MsgModel::GetImage(_, q) => q == r,
        MsgModel::WaitForImage(_, q) => q == r,
        _ => false,
    }
}

/// The message is a blocking query carrying reply channel `r`.
pub open spec fn is_wait_query_for(m: MsgModel, r: ReplyTo) -> bool {
    match m {
        MsgModel::WaitForImage(_, q) => q == r,
        _ => false,
    }
}

/// Any blocking query for `r` in `m` names URL `u`.
pub open spec fn wait_query_url_is(m: MsgModel, r: ReplyTo, u: Url) -> bool {
    match m {
        MsgModel::WaitForImage(v, q) => q == r ==> v == u,
        _ => true,
    }
}

/// How many messages of `msgs` satisfy `p`.
pub open spec fn msg_count_matching(msgs: Seq<MsgModel>, p: spec_fn(MsgModel) -> bool) -> nat
    decreases msgs.len(),
{
    if msgs.len() == 0 {
        0
    } else {
        (if p(msgs[0]) {
            1nat
        } else {
            0nat
        }) + msg_count_matching(msgs.drop_first(), p)
    }
}

/// How many queries of `msgs` carry reply channel `r`.
pub open spec fn queries_for(msgs: Seq<MsgModel>, r: ReplyTo) -> nat {
    msg_count_matching(msgs, |m: MsgModel| is_query_for(m, r))
}

proof fn lemma_msg_count_matching_add(a: Seq<MsgModel>, b: Seq<MsgModel>, p: spec_fn(MsgModel) -> bool)
    ensures
        msg_count_matching(a + b, p) == msg_count_matching(a, p) + msg_count_matching(b, p),
    decreases a.len(),
{
    if a.len() == 0 {
        assert(a + b =~= b);
    } else {
        assert((a + b).drop_first() =~= a.drop_first() + b);
        lemma_msg_count_matching_add(a.drop_first(), b, p);
    }
}

proof fn lemma_msg_count_matching_positive(msgs: Seq<MsgModel>, p: spec_fn(MsgModel) -> bool, j: int)
    requires
        0 <= j < msgs.len(),
        p(msgs[j]),
    ensures
        msg_count_matching(msgs, p) >= 1,
    decreases msgs.len(),
{
    if j > 0 {
        lemma_msg_count_matching_positive(msgs.drop_first(), p, j - 1);
    }
}

/// How many messages of the processed prefix of a run satisfy `p`: counting
/// stops where the run halts.
pub open spec fn processed_matching(
    c: CacheModel,
    msgs: Seq<MsgModel>,
    p: spec_fn(MsgModel) -> bool,
) -> nat
    decreases msgs.len(),
{
    if msgs.len() == 0 {
        0
    } else {
        let st = spec_step(c, msgs[0]);
        if st.fatal is Some {
            0
        } else {
            let here: nat = if p(msgs[0]) {
                1
            } else {
                0
            };
            if st.stop {
                here
            } else {
                here + processed_matching(st.cache, msgs.drop_first(), p)
            }
        }
    }
}

proof fn lemma_processed_le(c: CacheModel, msgs: Seq<MsgModel>, p: spec_fn(MsgModel) -> bool)
    ensures
        processed_matching(c, msgs, p) <= msg_count_matching(msgs, p),
    decreases msgs.len(),
{
    if msgs.len() > 0 {
        let st = spec_step(c, msgs[0]);
        if st.fatal is None && !st.stop {
            lemma_processed_le(st.cache, msgs.drop_first(), p);
        }
    }
}

/// One step of response accounting for reply channel `r`, whose blocking
/// query (if any) names URL `u`: every response sent plus every enrollment
/// kept balances the queries taken in.
proof fn lemma_step_responses(c: CacheModel, m: MsgModel, r: ReplyTo, u: Url)
    requires
        spec_step(c, m).fatal is None,
        forall|v: Url| v != u ==> !(#[trigger] c.waiters[v]).contains(r),
        match m {
            MsgModel::WaitForImage(v, q) => q == r ==> (v == u && count_in(c.waiters[u], r) == 0),
            _ => true,
        },
    ensures
        responses_for(spec_step(c, m).actions, r) + count_in(spec_step(c, m).cache.waiters[u], r)
            == count_in(c.waiters[u], r) + (if is_query_for(m, r) {
            1nat
        } else {
            0nat
        }),
        forall|v: Url| v != u ==> !(#[trigger] spec_step(c, m).cache.waiters[v]).contains(r),
        count_in(spec_step(c, m).cache.waiters[u], r) <= count_in(c.waiters[u], r) + (
        if is_wait_query_for(m, r) {
            1nat
        } else {
            0nat
        }),
{
    let st = spec_step(c, m);
    let note = notifications(c);
    let d = spec_dispatch(c, m);
    let p = |a: ActionModel| a matches ActionModel::Respond(w, _) && w == r;
    lemma_count_matching_notifications(c, p);
    lemma_count_matching_add(note, d.actions, p);
    if st.stop {
        assert(st.actions =~= (note + d.actions) + seq![st.actions.last()]);
        lemma_count_matching_add(note + d.actions, seq![st.actions.last()], p);
        lemma_count_matching_one(st.actions.last(), p);
    } else {
        assert(st.actions =~= note + d.actions);
    }
    assert(st.cache.waiters == d.cache.waiters);
    match m {
        MsgModel::Prefetch(v) => {
            lemma_dispatch_action_kinds(c, m);
            assert forall|j: int| 0 <= j < d.actions.len() implies !p(#[trigger] d.actions[j]) by {}
            lemma_count_matching_zero(d.actions, p);
        },
        MsgModel::StorePrefetchedImageData(v, data) => {
            if c.states[v] matches StateModel::Prefetching(_) && data is Err {
                assert(d.actions =~= drain_responses(c.waiters[v], ResponseModel::Failed));
                lemma_responses_drain(c.waiters[v], ResponseModel::Failed, r);
                if v != u {
                    lemma_count_in_contains(c.waiters[v], r);
                }
            } else {
                assert forall|j: int| 0 <= j < d.actions.len() implies !p(
                    #[trigger] d.actions[j],
                ) by {}
                lemma_count_matching_zero(d.actions, p);
            }
        },
        MsgModel::Decode(v) => {
            assert forall|j: int| 0 <= j < d.actions.len() implies !p(#[trigger] d.actions[j]) by {}
            lemma_count_matching_zero(d.actions, p);
        },
        MsgModel::StoreImage(v, image) => {
            if c.states[v] is Decoding {
                let rsp = match image {
                    Some(im) => ResponseModel::Ready(im),
                    None => ResponseModel::Failed,
                };
                assert(d.actions =~= drain_responses(c.waiters[v], rsp));
                lemma_responses_drain(c.waiters[v], rsp, r);
                if v != u {
                    lemma_count_in_contains(c.waiters[v], r);
                }
            } else {
                assert(d.actions =~= Seq::<ActionModel>::empty());
                lemma_count_matching_zero(d.actions, p);
            }
        },
        MsgModel::GetImage(v, q) => {
            assert(d.actions.len() == 1);
            assert(d.actions =~= seq![d.actions[0]]);
            lemma_count_matching_one(d.actions[0], p);
        },
        MsgModel::WaitForImage(v, q) => {
            match crate::cache::query_misuse(c.states[v]) {
                Some(_) => {},
                None => match crate::cache::immediate_response(c.states[v]) {
                    Some(_) => {
                        assert(d.actions.len() == 1);
                        assert(d.actions =~= seq![d.actions[0]]);
                        lemma_count_matching_one(d.actions[0], p);
                    },
                    None => {
                        assert(d.actions =~= Seq::<ActionModel>::empty());
                        lemma_count_matching_zero(d.actions, p);
                        lemma_count_in_push(c.waiters[v], q, r);
                        if q != r {
                            assert forall|w: Url| w != u implies !(#[trigger] d.cache.waiters[w]).contains(r) by {
                                if w == v {
                                    lemma_count_in_contains(c.waiters[v], r);
                                    lemma_count_in_contains(d.cache.waiters[v], r);
                                }
                            }
                        }
                    },
                },
            }
        },
        MsgModel::OnMsg(o) => {
            assert(d.actions =~= Seq::<ActionModel>::empty());
            lemma_count_matching_zero(d.actions, p);
        },
        MsgModel::Exit(q) => {
            assert(d.actions =~= Seq::<ActionModel>::empty());
            lemma_count_matching_zero(d.actions, p);
        },
    }
}

/// Response accounting over a whole run, for a reply channel `r` that is
/// used by at most one query and whose blocking query (if any) names `u`.
proof fn lemma_run_responses(c: CacheModel, msgs: Seq<MsgModel>, r: ReplyTo, u: Url)
    requires
        forall|v: Url| v != u ==> !(#[trigger] c.waiters[v]).contains(r),
        forall|j: int| 0 <= j < msgs.len() ==> wait_query_url_is(#[trigger] msgs[j], r, u),
        count_in(c.waiters[u], r) + queries_for(msgs, r) <= 1,
    ensures
        responses_for(run_from(c, msgs).actions, r) + count_in(
            run_from(c, msgs).cache.waiters[u],
            r,
        ) == count_in(c.waiters[u], r) + processed_matching(
            c,
            msgs,
            |m: MsgModel| is_query_for(m, r),
        ),
        forall|v: Url| v != u ==> !(#[trigger] run_from(c, msgs).cache.waiters[v]).contains(r),
        count_in(run_from(c, msgs).cache.waiters[u], r) <= 1,
    decreases msgs.len(),
{
    let t = run_from(c, msgs);
    let p = |a: ActionModel| a matches ActionModel::Respond(w, _) && w == r;
    let q = |m: MsgModel| is_query_for(m, r);
    if msgs.len() == 0 {
        lemma_count_matching_zero(t.actions, p);
    } else {
        let st = spec_step(c, msgs[0]);
        if st.fatal is Some {
            lemma_count_matching_zero(t.actions, p);
        } else {
            if is_wait_query_for(msgs[0], r) {
                lemma_msg_count_matching_positive(msgs, q, 0);
                lemma_count_in_contains(c.waiters[u], r);
            }
            lemma_step_responses(c, msgs[0], r, u);
            if st.stop {
            } else {
                if is_query_for(msgs[0], r) {
                    lemma_msg_count_matching_positive(msgs, q, 0);
                }
                lemma_run_responses(st.cache, msgs.drop_first(), r, u);
                lemma_count_matching_add(
                    st.actions,
                    run_from(st.cache, msgs.drop_first()).actions,
                    p,
                );
            }
        }
    }
}

/// A reply channel handed to at most one query receives at most one
/// response, however the run goes. `u` is the URL the blocking query (if
/// any) names.
pub proof fn lemma_at_most_one_response(msgs: Seq<MsgModel>, r: ReplyTo, u: Url)
    requires
        queries_for(msgs, r) <= 1,
        forall|j: int| 0 <= j < msgs.len() ==> wait_query_url_is(#[trigger] msgs[j], r, u),
    ensures
        responses_for(run_from(initial_model(), msgs).actions, r) <= 1,
{
    lemma_run_responses(initial_model(), msgs, r, u);
    lemma_processed_le(initial_model(), msgs, |m: MsgModel| is_query_for(m, r));
}

/// A processed `GetImage` is answered exactly once, provided its reply
/// channel is fresh: one response arrives on `r`, no more and no fewer.
pub proof fn lemma_get_image_one_response(msgs: Seq<MsgModel>, u: Url, r: ReplyTo, i: int)
    requires
        0 <= i < msgs.len(),
        msgs[i] == MsgModel::GetImage(u, r),
        queries_for(msgs, r) == 1,
        !run_from(initial_model(), msgs.take(i)).halted,
        spec_step(run_from(initial_model(), msgs.take(i)).cache, msgs[i]).fatal is None,
    ensures
        responses_for(run_from(initial_model(), msgs).actions, r) == 1,
{
    let c0 = initial_model();
    let q = |m: MsgModel| is_query_for(m, r);
    let p = |a: ActionModel| a matches ActionModel::Respond(w, _) && w == r;
    let prefix = msgs.take(i);
    let suffix = msgs.skip(i);
    assert(msgs =~= prefix + suffix);
    assert(suffix[0] == msgs[i]);
    lemma_run_append(c0, prefix, suffix);
    let mid = run_from(c0, prefix).cache;
    lemma_msg_count_matching_add(prefix, suffix, q);
    lemma_msg_count_matching_positive(suffix, q, 0);
    assert(msg_count_matching(prefix, q) == 0);
    assert forall|j: int| 0 <= j < prefix.len() implies wait_query_url_is(
        #[trigger] prefix[j],
        r,
        u,
    ) by {
        if is_wait_query_for(prefix[j], r) {
            lemma_msg_count_matching_positive(prefix, q, j);
        }
    }
    lemma_run_responses(c0, prefix, r, u);
    lemma_processed_le(c0, prefix, q);
    assert(responses_for(run_from(c0, prefix).actions, r) == 0);
    assert(count_in(mid.waiters[u], r) == 0);
    assert forall|j: int| 0 <= j < suffix.len() implies wait_query_url_is(
        #[trigger] suffix[j],
        r,
        u,
    ) by {
        if is_wait_query_for(suffix[j], r) {
            if j == 0 {
            } else {
                lemma_msg_count_matching_positive(suffix.drop_first(), q, j - 1);
                assert(suffix =~= seq![suffix[0]] + suffix.drop_first());
                lemma_msg_count_matching_add(seq![suffix[0]], suffix.drop_first(), q);
                lemma_msg_count_matching_positive(seq![suffix[0]], q, 0);
            }
        }
    }
    lemma_run_responses(mid, suffix, r, u);
    // the query at the head of the suffix is processed, and it is the only
    // query, so the processed count there is exactly one
    let st = spec_step(mid, suffix[0]);
    lemma_processed_le(st.cache, suffix.drop_first(), q);
    assert(msg_count_matching(suffix.drop_first(), q) == 0) by {
        assert(suffix =~= seq![suffix[0]] + suffix.drop_first());
        lemma_msg_count_matching_add(seq![suffix[0]], suffix.drop_first(), q);
        lemma_msg_count_matching_positive(seq![suffix[0]], q, 0);
    }
    assert(processed_matching(mid, suffix, q) == 1);
    // nothing ever enrolls r, so nothing is left waiting at the end
    assert(count_in(run_from(mid, suffix).cache.waiters[u], r) == 0) by {
        lemma_wait_count_bound(mid, suffix, r, u);
        lemma_processed_le(mid, suffix, |m: MsgModel| is_wait_query_for(m, r));
        assert forall|j: int| 0 <= j < suffix.len() implies !is_wait_query_for(
            #[trigger] suffix[j],
            r,
        ) by {
            if is_wait_query_for(suffix[j], r) {
                if j == 0 {
                } else {
                    lemma_msg_count_matching_positive(suffix.drop_first(), q, j - 1);
                }
            }
        }
        lemma_msg_count_matching_zero_like(suffix, |m: MsgModel| is_wait_query_for(m, r));
    }
    lemma_count_matching_add(run_from(c0, prefix).actions, run_from(mid, suffix).actions, p);
}

proof fn lemma_msg_count_matching_zero_like(msgs: Seq<MsgModel>, p: spec_fn(MsgModel) -> bool)
    requires
        forall|j: int| 0 <= j < msgs.len() ==> !p(#[trigger] msgs[j]),
    ensures
        msg_count_matching(msgs, p) == 0,
    decreases msgs.len(),
{
    if msgs.len() > 0 {
        lemma_msg_count_matching_zero_like(msgs.drop_first(), p);
    }
}

/// The waiter count for `r` under `u` never exceeds what the processed
/// blocking queries put in.
proof fn lemma_wait_count_bound(c: CacheModel, msgs: Seq<MsgModel>, r: ReplyTo, u: Url)
    requires
        count_in(c.waiters[u], r) == 0,
        forall|v: Url| v != u ==> !(#[trigger] c.waiters[v]).contains(r),
        forall|j: int| 0 <= j < msgs.len() ==> wait_query_url_is(#[trigger] msgs[j], r, u),
        queries_for(msgs, r) <= 1,
    ensures
        count_in(run_from(c, msgs).cache.waiters[u], r) <= processed_matching(
            c,
            msgs,
            |m: MsgModel| is_wait_query_for(m, r),
        ),
    decreases msgs.len(),
{
    let pw = |m: MsgModel| is_wait_query_for(m, r);
    let q = |m: MsgModel| is_query_for(m, r);
    if msgs.len() == 0 {
    } else {
        let st = spec_step(c, msgs[0]);
        if st.fatal is Some {
        } else {
            lemma_step_responses(c, msgs[0], r, u);
            if st.stop {
            } else {
                if is_wait_query_for(msgs[0], r) {
                    // the single query is spent here: the rest holds none,
                    // and the run can only drain r from here on
                    lemma_msg_count_matching_positive(msgs, q, 0);
                    lemma_run_responses(st.cache, msgs.drop_first(), r, u);
                    lemma_processed_le(st.cache, msgs.drop_first(), q);
                } else {
                    lemma_wait_count_bound(st.cache, msgs.drop_first(), r, u);
                }
            }
        }
    }
}

/// The one answer a settled URL gives: its image, or `Failed`.
pub open spec fn settled_response(s: StateModel) -> ResponseModel {
    match s {
        StateModel::Decoded(im) => ResponseModel::Ready(im),
        _ => ResponseModel::Failed,
    }
}

/// Settlement serves the waiters at once: the very step that moves a URL
/// into `Decoded` or `Failed` emits one response per enrolled waiter, in
/// enrollment order, built from the settled state, and leaves nobody
/// enrolled. The responses stand in this step's actions, so every waiter is
/// served before the next message is processed.
pub proof fn lemma_settlement_serves_waiters(c: CacheModel, m: MsgModel, u: Url)
    requires
        spec_step(c, m).fatal is None,
        !c.states[u].is_terminal(),
        spec_step(c, m).cache.states[u].is_terminal(),
    ensures
        spec_step(c, m).cache.waiters[u] == Seq::<ReplyTo>::empty(),
        spec_step(c, m).actions.subrange(
            notifications(c).len() as int,
            notifications(c).len() + c.waiters[u].len() as int,
        ) == drain_responses(c.waiters[u], settled_response(spec_step(c, m).cache.states[u])),
{
    let st = spec_step(c, m);
    let note = notifications(c);
    let d = spec_dispatch(c, m);
    assert(d.actions =~= drain_responses(
        c.waiters[u],
        settled_response(st.cache.states[u]),
    )) by {
        match m {
            MsgModel::StorePrefetchedImageData(v, data) => {},
            MsgModel::StoreImage(v, image) => {},
            _ => {},
        }
    }
    if st.stop {
        assert(st.actions =~= (note + d.actions) + seq![st.actions.last()]);
    }
    assert(st.actions.subrange(note.len() as int, note.len() + c.waiters[u].len() as int) =~= d.actions);
}

/// A blocking query whose URL settles is answered exactly once: if the run
/// processes `WaitForImage(u, r)` with a fresh reply channel `r`, and `u`
/// ends the run settled, then exactly one response arrives on `r` — at
/// enrollment if `u` was already settled, else at settlement.
pub proof fn lemma_wait_one_response(msgs: Seq<MsgModel>, u: Url, r: ReplyTo, i: int)
    requires
        0 <= i < msgs.len(),
        msgs[i] == MsgModel::WaitForImage(u, r),
        queries_for(msgs, r) == 1,
        !run_from(initial_model(), msgs.take(i)).halted,
        spec_step(run_from(initial_model(), msgs.take(i)).cache, msgs[i]).fatal is None,
        run_from(initial_model(), msgs).cache.states[u].is_terminal(),
    ensures
        responses_for(run_from(initial_model(), msgs).actions, r) == 1,
{
    let c0 = initial_model();
    let q = |m: MsgModel| is_query_for(m, r);
    let p = |a: ActionModel| a matches ActionModel::Respond(w, _) && w == r;
    let prefix = msgs.take(i);
    let suffix = msgs.skip(i);
    assert(msgs =~= prefix + suffix);
    assert(suffix[0] == msgs[i]);
    lemma_run_append(c0, prefix, suffix);
    let mid = run_from(c0, prefix).cache;
    lemma_msg_count_matching_add(prefix, suffix, q);
    lemma_msg_count_matching_positive(suffix, q, 0);
    assert(msg_count_matching(prefix, q) == 0);
    assert(msg_count_matching(suffix.drop_first(), q) == 0) by {
        assert(suffix =~= seq![suffix[0]] + suffix.drop_first());
        lemma_msg_count_matching_add(seq![suffix[0]], suffix.drop_first(), q);
        lemma_msg_count_matching_positive(seq![suffix[0]], q, 0);
    }
    assert forall|j: int| 0 <= j < prefix.len() implies wait_query_url_is(
        #[trigger] prefix[j],
        r,
        u,
    ) by {
        if is_wait_query_for(prefix[j], r) {
            lemma_msg_count_matching_positive(prefix, q, j);
        }
    }
    lemma_run_responses(c0, prefix, r, u);
    lemma_processed_le(c0, prefix, q);
    assert(responses_for(run_from(c0, prefix).actions, r) == 0);
    assert(count_in(mid.waiters[u], r) == 0);
    assert forall|j: int| 0 <= j < suffix.len() implies wait_query_url_is(
        #[trigger] suffix[j],
        r,
        u,
    ) by {
        if j > 0 && is_wait_query_for(suffix[j], r) {
            lemma_msg_count_matching_positive(suffix.drop_first(), q, j - 1);
        }
    }
    lemma_run_responses(mid, suffix, r, u);
    let st = spec_step(mid, suffix[0]);
    lemma_processed_le(st.cache, suffix.drop_first(), q);
    assert(processed_matching(mid, suffix, q) == 1);
    // the run keeps the waiter invariant, and a settled URL accepts no
    // waiters, so nothing is left enrolled for r at the end
    let t = run_from(mid, suffix);
    lemma_initial_waiters_inv();
    lemma_run_preserves_waiters_inv(c0, prefix);
    lemma_run_preserves_waiters_inv(mid, suffix);
    assert(t.cache.waiters[u].len() == 0);
    assert(count_in(t.cache.waiters[u], r) == 0);
    lemma_count_matching_add(run_from(c0, prefix).actions, t.actions, p);
}

} // verus!
