use image_cache::Action;
use image_cache::Image;
use image_cache::ImageCache;
use image_cache::ImageResponseMsg;
use image_cache::Misuse;
use image_cache::Msg;
use image_cache::ObserverId;
use image_cache::ReplyTo;
use image_cache::Url;
use std::sync::Arc;

fn url(key: u64) -> Url {
    Url { key }
}

fn reply(id: u64) -> ReplyTo {
    ReplyTo { id }
}

fn observer(id: u64) -> ObserverId {
    ObserverId { id }
}

fn test_image() -> Arc<Image> {
    Arc::new(Image { width: 2, height: 2, data: vec![1, 2, 3, 4] })
}

fn test_image_bin() -> Vec<u8> {
    vec![9, 9, 9]
}

/// Feed one message, expecting no protocol violation.
fn ok_actions(cache: &mut ImageCache, msg: Msg) -> Vec<Action> {
    match cache.process(msg) {
        Ok(step) => step.actions,
        Err(e) => panic!("unexpected protocol violation: {:?}", e),
    }
}

/// Drive a URL to `Decoded` and drain the worker actions on the way.
fn prime_decoded(cache: &mut ImageCache, u: Url) {
    ok_actions(cache, Msg::Prefetch(u));
    ok_actions(cache, Msg::Decode(u));
    ok_actions(cache, Msg::StorePrefetchedImageData(u, Ok(test_image_bin())));
    ok_actions(cache, Msg::StoreImage(u, Some(test_image())));
}

#[test]
fn should_request_url_from_resource_task_on_prefetch() {
    let mut cache = ImageCache::new();
    let u = url(1);
    let acts = ok_actions(&mut cache, Msg::Prefetch(u));
    assert_eq!(acts.len(), 1);
    assert!(matches!(acts[0], Action::SpawnPrefetch(v) if v == u));
}

#[test]
fn should_not_request_url_from_resource_task_on_multiple_prefetches() {
    let mut cache = ImageCache::new();
    let u = url(1);
    let first = ok_actions(&mut cache, Msg::Prefetch(u));
    assert_eq!(first.len(), 1);
    let second = ok_actions(&mut cache, Msg::Prefetch(u));
    assert!(second.is_empty());
}

#[test]
fn should_not_request_image_from_resource_task_if_image_is_already_available() {
    let mut cache = ImageCache::new();
    let u = url(1);
    prime_decoded(&mut cache, u);
    let again = ok_actions(&mut cache, Msg::Prefetch(u));
    assert!(again.is_empty());
}

#[test]
fn should_not_request_image_from_resource_task_if_image_fetch_already_failed() {
    let mut cache = ImageCache::new();
    let u = url(1);
    ok_actions(&mut cache, Msg::Prefetch(u));
    ok_actions(&mut cache, Msg::Decode(u));
    ok_actions(&mut cache, Msg::StorePrefetchedImageData(u, Err(())));
    let again = ok_actions(&mut cache, Msg::Prefetch(u));
    assert!(again.is_empty());
    let decode_again = ok_actions(&mut cache, Msg::Decode(u));
    assert!(decode_again.is_empty());
}

#[test]
fn should_fail_if_unprefetched_image_is_requested() {
    let mut cache = ImageCache::new();
    let r = cache.process(Msg::GetImage(url(1), reply(1)));
    assert_eq!(r.unwrap_err(), Misuse::RequestBeforePrefetch);
}

#[test]
fn should_fail_if_requesting_decode_of_an_unprefetched_image() {
    let mut cache = ImageCache::new();
    let r = cache.process(Msg::Decode(url(1)));
    assert_eq!(r.unwrap_err(), Misuse::DecodeBeforePrefetch);
}

#[test]
fn should_fail_if_requesting_image_before_requesting_decode() {
    let mut cache = ImageCache::new();
    let u = url(1);
    ok_actions(&mut cache, Msg::Prefetch(u));
    let r = cache.process(Msg::GetImage(u, reply(1)));
    assert_eq!(r.unwrap_err(), Misuse::RequestBeforeDecode);
}

#[test]
fn should_fail_if_requesting_image_of_prefetched_but_undecoded_data() {
    let mut cache = ImageCache::new();
    let u = url(1);
    ok_actions(&mut cache, Msg::Prefetch(u));
    ok_actions(&mut cache, Msg::StorePrefetchedImageData(u, Ok(test_image_bin())));
    let r = cache.process(Msg::WaitForImage(u, reply(1)));
    assert_eq!(r.unwrap_err(), Misuse::RequestBeforeDecode);
}

#[test]
fn should_fail_on_worker_report_in_wrong_state() {
    let mut cache = ImageCache::new();
    let u = url(1);
    let r = cache.process(Msg::StorePrefetchedImageData(u, Ok(test_image_bin())));
    assert_eq!(r.unwrap_err(), Misuse::StoreDataWrongState);
    let r = cache.process(Msg::StoreImage(u, Some(test_image())));
    assert_eq!(r.unwrap_err(), Misuse::StoreImageWrongState);
}

#[test]
fn should_return_image_not_ready_if_data_has_not_arrived() {
    let mut cache = ImageCache::new();
    let u = url(1);
    ok_actions(&mut cache, Msg::Prefetch(u));
    ok_actions(&mut cache, Msg::Decode(u));
    let acts = ok_actions(&mut cache, Msg::GetImage(u, reply(1)));
    assert_eq!(acts.len(), 1);
    assert!(matches!(
        &acts[0],
        Action::Respond(r, ImageResponseMsg::ImageNotReady) if r.id == 1
    ));
}

#[test]
fn should_return_not_ready_if_image_is_still_decoding() {
    // a gated decoder: the bytes are in, the decoder has not reported yet
    let mut cache = ImageCache::new();
    let u = url(1);
    ok_actions(&mut cache, Msg::Prefetch(u));
    ok_actions(&mut cache, Msg::Decode(u));
    let spawned = ok_actions(&mut cache, Msg::StorePrefetchedImageData(u, Ok(test_image_bin())));
    assert_eq!(spawned.len(), 1);
    assert!(matches!(&spawned[0], Action::SpawnDecode(v, bytes) if *v == u && *bytes == test_image_bin()));
    let acts = ok_actions(&mut cache, Msg::GetImage(u, reply(1)));
    assert!(matches!(&acts[0], Action::Respond(_, ImageResponseMsg::ImageNotReady)));
    // release the decoder
    ok_actions(&mut cache, Msg::StoreImage(u, Some(test_image())));
    let acts = ok_actions(&mut cache, Msg::GetImage(u, reply(2)));
    assert!(matches!(&acts[0], Action::Respond(_, ImageResponseMsg::ImageReady(_))));
}

#[test]
fn should_return_decoded_image_data_if_data_has_arrived() {
    let mut cache = ImageCache::new();
    let u = url(1);
    prime_decoded(&mut cache, u);
    let acts = ok_actions(&mut cache, Msg::GetImage(u, reply(1)));
    assert_eq!(acts.len(), 1);
    match &acts[0] {
        Action::Respond(r, ImageResponseMsg::ImageReady(image)) => {
            assert_eq!(r.id, 1);
            assert_eq!(image.data, vec![1, 2, 3, 4]);
        },
        other => panic!("expected an ImageReady response, got {:?}", respond_kind(other)),
    }
}

#[test]
fn should_return_decoded_image_data_for_multiple_requests() {
    let mut cache = ImageCache::new();
    let u = url(1);
    prime_decoded(&mut cache, u);
    for id in 1..3 {
        let acts = ok_actions(&mut cache, Msg::GetImage(u, reply(id)));
        assert_eq!(acts.len(), 1);
        assert!(matches!(&acts[0], Action::Respond(_, ImageResponseMsg::ImageReady(_))));
    }
}

#[test]
fn should_return_failed_if_image_bin_cannot_be_fetched() {
    let mut cache = ImageCache::new();
    let u = url(1);
    ok_actions(&mut cache, Msg::Prefetch(u));
    ok_actions(&mut cache, Msg::Decode(u));
    ok_actions(&mut cache, Msg::StorePrefetchedImageData(u, Err(())));
    let acts = ok_actions(&mut cache, Msg::GetImage(u, reply(1)));
    assert_eq!(acts.len(), 1);
    assert!(matches!(&acts[0], Action::Respond(_, ImageResponseMsg::ImageFailed)));
}

#[test]
fn should_return_failed_for_multiple_get_image_requests_if_image_bin_cannot_be_fetched() {
    let mut cache = ImageCache::new();
    let u = url(1);
    ok_actions(&mut cache, Msg::Prefetch(u));
    ok_actions(&mut cache, Msg::Decode(u));
    ok_actions(&mut cache, Msg::StorePrefetchedImageData(u, Err(())));
    for id in 1..3 {
        let acts = ok_actions(&mut cache, Msg::GetImage(u, reply(id)));
        assert!(matches!(&acts[0], Action::Respond(_, ImageResponseMsg::ImageFailed)));
    }
}

#[test]
fn should_return_failed_if_image_decode_fails() {
    let mut cache = ImageCache::new();
    let u = url(1);
    ok_actions(&mut cache, Msg::Prefetch(u));
    ok_actions(&mut cache, Msg::Decode(u));
    // bogus data: the decoder rejects it
    ok_actions(&mut cache, Msg::StorePrefetchedImageData(u, Ok(Vec::new())));
    ok_actions(&mut cache, Msg::StoreImage(u, None));
    let acts = ok_actions(&mut cache, Msg::GetImage(u, reply(1)));
    assert_eq!(acts.len(), 1);
    assert!(matches!(&acts[0], Action::Respond(_, ImageResponseMsg::ImageFailed)));
}

#[test]
fn should_return_image_on_wait_if_image_is_already_loaded() {
    let mut cache = ImageCache::new();
    let u = url(1);
    prime_decoded(&mut cache, u);
    let acts = ok_actions(&mut cache, Msg::WaitForImage(u, reply(1)));
    assert_eq!(acts.len(), 1);
    assert!(matches!(&acts[0], Action::Respond(_, ImageResponseMsg::ImageReady(_))));
}

#[test]
fn should_return_image_on_wait_if_image_is_not_yet_loaded() {
    let mut cache = ImageCache::new();
    let u = url(1);
    ok_actions(&mut cache, Msg::Prefetch(u));
    ok_actions(&mut cache, Msg::Decode(u));
    // the resource service is still blocked: the waiter is enrolled silently
    let acts = ok_actions(&mut cache, Msg::WaitForImage(u, reply(7)));
    assert!(acts.is_empty());
    // unblock the resource service, then the decoder
    ok_actions(&mut cache, Msg::StorePrefetchedImageData(u, Ok(test_image_bin())));
    let served = ok_actions(&mut cache, Msg::StoreImage(u, Some(test_image())));
    let responses: Vec<&Action> = served
        .iter()
        .filter(|a| matches!(a, Action::Respond(_, _)))
        .collect();
    assert_eq!(responses.len(), 1);
    assert!(matches!(
        responses[0],
        Action::Respond(r, ImageResponseMsg::ImageReady(_)) if r.id == 7
    ));
}

#[test]
fn should_return_image_failed_on_wait_if_image_fails_to_load() {
    let mut cache = ImageCache::new();
    let u = url(1);
    ok_actions(&mut cache, Msg::Prefetch(u));
    ok_actions(&mut cache, Msg::Decode(u));
    let acts = ok_actions(&mut cache, Msg::WaitForImage(u, reply(7)));
    assert!(acts.is_empty());
    let served = ok_actions(&mut cache, Msg::StorePrefetchedImageData(u, Err(())));
    let responses: Vec<&Action> = served
        .iter()
        .filter(|a| matches!(a, Action::Respond(_, _)))
        .collect();
    assert_eq!(responses.len(), 1);
    assert!(matches!(
        responses[0],
        Action::Respond(r, ImageResponseMsg::ImageFailed) if r.id == 7
    ));
}

#[test]
fn waiters_are_served_in_enrollment_order() {
    let mut cache = ImageCache::new();
    let u = url(1);
    ok_actions(&mut cache, Msg::Prefetch(u));
    ok_actions(&mut cache, Msg::Decode(u));
    ok_actions(&mut cache, Msg::WaitForImage(u, reply(10)));
    ok_actions(&mut cache, Msg::WaitForImage(u, reply(11)));
    ok_actions(&mut cache, Msg::StorePrefetchedImageData(u, Ok(test_image_bin())));
    let served = ok_actions(&mut cache, Msg::StoreImage(u, Some(test_image())));
    let ids: Vec<u64> = served
        .iter()
        .filter_map(|a| match a {
            Action::Respond(r, ImageResponseMsg::ImageReady(_)) => Some(r.id),
            _ => None,
        })
        .collect();
    assert_eq!(ids, vec![10, 11]);
}

#[test]
fn should_exit_on_request() {
    let mut cache = ImageCache::new();
    let step = cache.process(Msg::Exit(reply(1))).unwrap();
    assert!(step.done);
    assert_eq!(step.actions.len(), 1);
    assert!(matches!(step.actions[0], Action::AckExit(r) if r.id == 1));
}

#[test]
fn exit_waits_for_outstanding_workers() {
    let mut cache = ImageCache::new();
    let u = url(1);
    ok_actions(&mut cache, Msg::Prefetch(u));
    // a prefetcher is still out: the exit is recorded, not acknowledged
    let step = cache.process(Msg::Exit(reply(1))).unwrap();
    assert!(!step.done);
    assert!(step.actions.is_empty());
    // the worker's report makes the cache quiescent: the same step acks
    let step = cache
        .process(Msg::StorePrefetchedImageData(u, Ok(test_image_bin())))
        .unwrap();
    assert!(step.done);
    assert!(matches!(step.actions.last(), Some(Action::AckExit(r)) if r.id == 1));
}

#[test]
fn second_exit_while_pending_is_refused() {
    let mut cache = ImageCache::new();
    let u = url(1);
    ok_actions(&mut cache, Msg::Prefetch(u));
    cache.process(Msg::Exit(reply(1))).unwrap();
    let r = cache.process(Msg::Exit(reply(2)));
    assert_eq!(r.unwrap_err(), Misuse::ExitAlreadyPending);
}

#[test]
fn observers_hear_every_later_message_in_order() {
    let mut cache = ImageCache::new();
    let u = url(1);
    // registration itself is not observed by the newcomer
    let acts = ok_actions(&mut cache, Msg::OnMsg(observer(1)));
    assert!(acts.is_empty());
    let acts = ok_actions(&mut cache, Msg::OnMsg(observer(2)));
    assert_eq!(acts.len(), 1);
    assert!(matches!(acts[0], Action::Notify(o) if o.id == 1));
    let acts = ok_actions(&mut cache, Msg::Prefetch(u));
    assert!(matches!(acts[0], Action::Notify(o) if o.id == 1));
    assert!(matches!(acts[1], Action::Notify(o) if o.id == 2));
    assert!(matches!(acts[2], Action::SpawnPrefetch(v) if v == u));
}

fn respond_kind(action: &Action) -> &'static str {
    match action {
        Action::Notify(_) => "Notify",
        Action::SpawnPrefetch(_) => "SpawnPrefetch",
        Action::SpawnDecode(_, _) => "SpawnDecode",
        Action::Respond(_, ImageResponseMsg::ImageReady(_)) => "Respond(ImageReady)",
        Action::Respond(_, ImageResponseMsg::ImageNotReady) => "Respond(ImageNotReady)",
        Action::Respond(_, ImageResponseMsg::ImageFailed) => "Respond(ImageFailed)",
        Action::AckExit(_) => "AckExit",
    }
}
