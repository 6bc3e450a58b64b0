use image_cache::sync_route;
use image_cache::Action;
use image_cache::Console;
use image_cache::Image;
use image_cache::ImageCache;
use image_cache::ImageResponseMsg;
use image_cache::Msg;
use image_cache::ProgressMsg;
use image_cache::RenderBox;
use image_cache::ReplyTo;
use image_cache::UnscannedMethods;
use image_cache::Url;
use image_cache::load_image_data;
use std::sync::Arc;

fn url(key: u64) -> Url {
    Url { key }
}

fn reply(id: u64) -> ReplyTo {
    ReplyTo { id }
}

fn test_image() -> Arc<Image> {
    Arc::new(Image { width: 1, height: 1, data: vec![5] })
}

#[test]
fn load_image_data_concatenates_payloads_in_order() {
    let frames = vec![
        ProgressMsg::Payload(vec![1, 2]),
        ProgressMsg::Payload(vec![3]),
        ProgressMsg::Payload(vec![4, 5]),
        ProgressMsg::Done(Ok(())),
    ];
    assert_eq!(load_image_data(frames), Ok(vec![1, 2, 3, 4, 5]));
}

#[test]
fn load_image_data_with_no_payload_is_empty() {
    let frames = vec![ProgressMsg::Done(Ok(()))];
    assert_eq!(load_image_data(frames), Ok(Vec::new()));
}

#[test]
fn load_image_data_discards_partial_data_on_error() {
    let frames = vec![ProgressMsg::Payload(vec![1, 2, 3]), ProgressMsg::Done(Err(()))];
    assert_eq!(load_image_data(frames), Err(()));
}

#[test]
fn load_image_data_stops_at_first_done() {
    let frames = vec![
        ProgressMsg::Payload(vec![1]),
        ProgressMsg::Done(Ok(())),
        ProgressMsg::Payload(vec![2]),
    ];
    assert_eq!(load_image_data(frames), Ok(vec![1]));
}

#[test]
fn sync_route_rewrites_get_image_to_wait() {
    let (routed, stop) = sync_route(Msg::GetImage(url(1), reply(2)));
    assert!(!stop);
    assert!(matches!(routed, Msg::WaitForImage(u, r) if u == url(1) && r.id == 2));
}

#[test]
fn sync_route_passes_other_messages_through() {
    let (routed, stop) = sync_route(Msg::Prefetch(url(3)));
    assert!(!stop);
    assert!(matches!(routed, Msg::Prefetch(u) if u == url(3)));
    let (routed, stop) = sync_route(Msg::Exit(reply(9)));
    assert!(stop);
    assert!(matches!(routed, Msg::Exit(r) if r.id == 9));
}

#[test]
fn sync_cache_should_wait_for_images() {
    // a sync-wrapped cache: every message passes through the rewrite, so a
    // read placed while the decode is in flight blocks and then gets the
    // image, never ImageNotReady
    let mut cache = ImageCache::new();
    let u = url(1);
    let mut responses: Vec<ImageResponseMsg> = Vec::new();
    let script = vec![
        Msg::Prefetch(u),
        Msg::Decode(u),
        Msg::GetImage(u, reply(1)),
        Msg::StorePrefetchedImageData(u, Ok(vec![7])),
        Msg::StoreImage(u, Some(test_image())),
    ];
    for msg in script {
        let (routed, stop) = sync_route(msg);
        assert!(!stop);
        let step = cache.process(routed).unwrap();
        for action in step.actions {
            if let Action::Respond(r, response) = action {
                assert_eq!(r.id, 1);
                responses.push(response);
            }
        }
    }
    assert_eq!(responses.len(), 1);
    assert!(matches!(responses[0], ImageResponseMsg::ImageReady(_)));
}

#[test]
fn console_alert_prefixes_the_message() {
    let console = Console::new();
    assert_eq!(console.alert("hello"), "LOG: hello");
    assert_eq!(console.alert(""), "LOG: ");
}

#[test]
fn raw_text_reads_an_unscanned_text_box() {
    let unscanned = RenderBox::UnscannedTextBox(String::from("some text"));
    assert_eq!(unscanned.raw_text(), "some text");
}

#[test]
fn response_equality_is_defined_off_the_ready_case() {
    let not_ready = ImageResponseMsg::ImageNotReady;
    let failed = ImageResponseMsg::ImageFailed;
    let ready = ImageResponseMsg::ImageReady(test_image());
    assert!(not_ready.eq(&ImageResponseMsg::ImageNotReady));
    assert!(failed.eq(&ImageResponseMsg::ImageFailed));
    assert!(!not_ready.eq(&failed));
    assert!(!ready.eq(&not_ready));
    assert!(!failed.eq(&ready));
}

#[test]
fn cloning_a_ready_response_shares_the_image() {
    let ready = ImageResponseMsg::ImageReady(test_image());
    let cloned = ready.clone();
    match (ready, cloned) {
        (ImageResponseMsg::ImageReady(a), ImageResponseMsg::ImageReady(b)) => {
            assert_eq!(a.data, b.data);
            assert_eq!(a.width, b.width);
            assert_eq!(a.height, b.height);
        },
        _ => panic!("clone changed the response case"),
    }
}
