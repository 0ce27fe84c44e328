use s6ui::aws::credentials::AWSProfile;
use s6ui::aws::s3_backend::{
    build_range_header, build_request, decide_retry, resolve_redirect_region, S3Backend,
    StreamingDownload, WorkItem, STREAMING_CHUNK_SIZE,
};
use s6ui::aws::signer::civil_from_unix;
use s6ui::backend::{Backend, CancelFlag};
use s6ui::events::StateEvent;

fn profile(region: &str) -> AWSProfile {
    let mut p = AWSProfile::default();
    p.name = "default".to_string();
    p.region = region.to_string();
    p.access_key_id = "SECRET-REDACTED".to_string();
    p.secret_access_key = "wJalrXUtnFEMI/K7MDENG/bPxRfiCYEXAMPLEKEY".to_string();
    p
}

fn engine() -> S3Backend {
    S3Backend::new(profile("us-east-1"))
}

fn chars(s: &str) -> Vec<char> {
    s.chars().collect()
}

fn describe(item: &WorkItem) -> String {
    match item {
        WorkItem::ListBuckets => "buckets".to_string(),
        WorkItem::ListObjects { bucket, prefix, continuation_token, cancel_flag } => {
            format!("list {}/{} token={} flag={:?}", bucket, prefix, continuation_token, cancel_flag)
        }
        WorkItem::GetObject { bucket, key, max_bytes, cancel_flag } => {
            format!("get {}/{} max={:?} flag={:?}", bucket, key, max_bytes, cancel_flag)
        }
        WorkItem::GetObjectRange { bucket, key, start_byte, end_byte, .. } => {
            format!("range {}/{} {}-{}", bucket, key, start_byte, end_byte)
        }
        WorkItem::GetObjectStreaming { bucket, key, start_byte, total_size, .. } => {
            format!("stream {}/{} from {} of {}", bucket, key, start_byte, total_size)
        }
    }
}

fn drain(engine: &mut S3Backend, foreground: bool) -> Vec<String> {
    let mut items = Vec::new();
    while let Some(item) = engine.next_work(foreground) {
        items.push(describe(&item));
    }
    items
}

#[test]
fn foreground_queue_is_first_in_first_out() {
    let mut e = engine();
    e.list_buckets();
    e.list_objects("b", "p/", "", None);
    e.get_object_range("b", "k", 5, 9, None);
    e.get_object_streaming("b", "k", 0, 100, None);
    assert_eq!(
        drain(&mut e, true),
        vec![
            "buckets",
            "list b/p/ token= flag=None",
            "range b/k 5-9",
            "stream b/k from 0 of 100"
        ]
    );
    assert!(drain(&mut e, false).is_empty());
}

#[test]
fn background_queue_serves_the_latest_prefetch_first() {
    let mut e = engine();
    e.list_objects_prefetch("b", "one/", false);
    e.list_objects_prefetch("b", "two/", false);
    e.get_object("b", "k", Some(10), true, false);
    assert_eq!(
        drain(&mut e, false),
        vec![
            "get b/k max=Some(10) flag=None",
            "list b/two/ token= flag=None",
            "list b/one/ token= flag=None"
        ]
    );
}

#[test]
fn a_new_hover_request_cancels_the_one_before() {
    let mut e = engine();
    e.list_objects_prefetch("b", "one/", true);
    e.list_objects_prefetch("b", "two/", true);
    assert!(e.is_cancelled(CancelFlag { id: 0 }));
    assert!(!e.is_cancelled(CancelFlag { id: 1 }));
    e.get_object("b", "k", Some(10), true, true);
    e.get_object("b", "l", Some(10), true, true);
    assert!(e.is_cancelled(CancelFlag { id: 2 }));
    assert!(!e.is_cancelled(CancelFlag { id: 3 }));
    assert_eq!(
        drain(&mut e, false),
        vec![
            "get b/l max=Some(10) flag=Some(CancelFlag { id: 3 })",
            "list b/two/ token= flag=Some(CancelFlag { id: 1 })"
        ]
    );
}

#[test]
fn hovering_a_file_leaves_the_hovered_folder_alone() {
    let mut e = engine();
    e.list_objects_prefetch("b", "one/", true);
    e.get_object("b", "k", Some(10), true, true);
    assert!(!e.is_cancelled(CancelFlag { id: 0 }));
    assert!(!e.is_cancelled(CancelFlag { id: 1 }));
    e.get_object("b", "plain", Some(10), true, false);
    assert!(!e.is_cancelled(CancelFlag { id: 1 }));
    e.list_objects_prefetch("b", "two/", true);
    assert!(e.is_cancelled(CancelFlag { id: 0 }));
    assert!(!e.is_cancelled(CancelFlag { id: 1 }));
}

#[test]
fn a_failed_response_without_an_error_body_reports_its_status() {
    let mut e = engine();
    let mut download = StreamingDownload::new("b", "k", 3, 100, 302);
    assert!(e.push_chunk(&mut download, &vec![b'x'; STREAMING_CHUNK_SIZE + 1]));
    assert!(e.take_events().is_empty());
    assert_eq!(download.buffer.len(), STREAMING_CHUNK_SIZE + 1);
    assert_eq!(download.bytes_received, 0);
    assert_eq!(e.process_get_object_streaming(download, "r", 0), None);
    let events = e.take_events();
    assert_eq!(events.len(), 1);
    assert!(matches!(
        &events[0],
        StateEvent::ObjectRangeLoadError { start_byte: 3, error_message, .. }
            if error_message == "HTTP 302"
    ));
    assert_eq!(e.get_cached_region("b"), "");

    e.process_list_buckets(500, "");
    assert_eq!(e.process_list_objects("b", "p/", "", "r", 0, 503, "busy"), None);
    assert_eq!(e.process_get_object("b", "k", "r", 0, 404, ""), None);
    assert_eq!(e.process_get_object_range("b", "k", 7, "r", 0, 199, None, b"partial"), None);
    assert_eq!(e.get_cached_region("b"), "");
    assert_eq!(e.process_get_object("b", "k", "r", 0, 299, "fine"), None);
    let events = e.take_events();
    assert_eq!(events.len(), 5);
    assert!(matches!(
        &events[0],
        StateEvent::BucketsLoadError { error_message } if error_message == "HTTP 500"
    ));
    assert!(matches!(
        &events[1],
        StateEvent::ObjectsLoadError { prefix, error_message, .. }
            if prefix == "p/" && error_message == "HTTP 503"
    ));
    assert!(matches!(
        &events[2],
        StateEvent::ObjectContentLoadError { error_message, .. } if error_message == "HTTP 404"
    ));
    assert!(matches!(
        &events[3],
        StateEvent::ObjectRangeLoadError { start_byte: 7, error_message, .. }
            if error_message == "HTTP 199"
    ));
    assert!(matches!(
        &events[4],
        StateEvent::ObjectContentLoaded { content, .. } if content == b"fine"
    ));
    assert_eq!(e.get_cached_region("b"), "r");
}

#[test]
fn prefetch_is_boosted_to_the_front_of_the_foreground_queue() {
    let mut e = engine();
    e.list_buckets();
    e.list_objects_prefetch("b", "other/", false);
    e.list_objects_prefetch("b", "p/", true);
    assert!(e.has_pending_request("b", "p/"));
    assert!(!e.has_pending_request("b", "q/"));
    assert!(!e.has_pending_object_request("b", "p/"));

    assert!(e.prioritize_request("b", "p/"));
    assert!(!e.prioritize_request("b", "q/"));
    assert!(e.prioritize_request("b", "p/"));

    assert_eq!(drain(&mut e, true), vec!["list b/p/ token= flag=None", "buckets"]);
    assert_eq!(drain(&mut e, false), vec!["list b/other/ token= flag=None"]);
}

#[test]
fn a_boosted_request_survives_later_hovering() {
    let mut e = engine();
    e.get_object("b", "k", Some(64), true, true);
    assert!(e.prioritize_object_request("b", "k"));
    e.get_object("b", "other", Some(64), true, true);
    assert_eq!(drain(&mut e, true), vec!["get b/k max=Some(64) flag=None"]);
}

#[test]
fn cancel_all_leaves_nothing_to_work_on() {
    let mut e = engine();
    e.list_buckets();
    e.list_objects_prefetch("b", "p/", false);
    e.push_event(StateEvent::BucketsLoadError { error_message: "kept".to_string() });
    e.cancel_all();
    assert!(e.next_work(true).is_none());
    assert!(e.next_work(false).is_none());
    assert!(!e.has_pending_request("b", "p/"));
    assert_eq!(e.take_events().len(), 1);
    assert!(e.take_events().is_empty());
}

#[test]
fn flags_are_set_only_by_the_engine_that_issued_them() {
    let mut e = engine();
    e.cancel(CancelFlag { id: 7 });
    assert!(!e.is_cancelled(CancelFlag { id: 7 }));
    let flag = e.new_cancel_flag();
    assert!(!e.is_cancelled(flag));
    e.cancel(flag);
    e.cancel(flag);
    assert!(e.is_cancelled(flag));
    let next = e.new_cancel_flag();
    assert_ne!(flag, next);
    assert!(!e.is_cancelled(next));
}

#[test]
fn region_cache_is_idempotent_and_returns_the_last_value() {
    let mut e = engine();
    assert_eq!(e.get_cached_region("b"), "");
    assert_eq!(e.region_for("b"), "us-east-1");
    e.cache_region("b", "eu-west-1");
    e.cache_region("b", "eu-west-1");
    assert_eq!(e.get_cached_region("b"), "eu-west-1");
    e.cache_region("b", "ap-south-1");
    assert_eq!(e.get_cached_region("b"), "ap-south-1");
    assert_eq!(e.region_for("b"), "ap-south-1");
    assert_eq!(e.region_for("other"), "us-east-1");
    e.set_profile(profile(""));
    assert_eq!(e.get_cached_region("b"), "");
    assert_eq!(e.region_for("b"), "us-east-1");
    e.set_profile(profile("sa-east-1"));
    assert_eq!(e.region_for("b"), "sa-east-1");
    assert_eq!(e.snapshot_profile().region, "sa-east-1");
}

#[test]
fn redirect_region_comes_from_endpoint_bucket_name_or_default() {
    let body = chars(
        "<Error><Code>PermanentRedirect</Code><Endpoint>x.s3.eu-west-1.amazonaws.com</Endpoint></Error>",
    );
    assert_eq!(resolve_redirect_region(&body, "x", "us-east-1"), Some("eu-west-1".to_string()));
    assert_eq!(resolve_redirect_region(&body, "x", "eu-west-1"), None);
    let bare = chars("<Error><Code>PermanentRedirect</Code></Error>");
    assert_eq!(
        resolve_redirect_region(&bare, "Logs-AP-SOUTHEAST-2-prod", "us-east-1"),
        Some("ap-southeast-2".to_string())
    );
    assert_eq!(resolve_redirect_region(&bare, "plain", "eu-west-1"), Some("us-east-1".to_string()));
    assert_eq!(resolve_redirect_region(&bare, "plain", "us-east-1"), None);
    assert_eq!(decide_retry(&body, "x", "us-east-1", 0), Some("eu-west-1".to_string()));
    assert_eq!(decide_retry(&body, "x", "us-east-1", 1), None);
    let denied = chars("<Error><Code>AccessDenied</Code></Error>");
    assert_eq!(decide_retry(&denied, "x", "us-east-1", 0), None);
}

#[test]
fn permanent_redirect_is_retried_once_and_the_region_is_cached() {
    let mut e = engine();
    let redirect = "<Error><Code>PermanentRedirect</Code><Endpoint>x.s3.eu-west-1.amazonaws.com</Endpoint></Error>";
    let region = e.region_for("x");
    assert_eq!(region, "us-east-1");
    let retry = e.process_list_objects("x", "", "", &region, 0, 301, redirect);
    assert_eq!(retry, Some("eu-west-1".to_string()));
    assert!(e.take_events().is_empty());
    assert_eq!(e.get_cached_region("x"), "eu-west-1");

    let ok = "<ListBucketResult><IsTruncated>false</IsTruncated><Contents><Key>k</Key><Size>1</Size></Contents></ListBucketResult>";
    let retry = e.process_list_objects("x", "", "", "eu-west-1", 1, 200, ok);
    assert_eq!(retry, None);
    let events = e.take_events();
    assert_eq!(events.len(), 1);
    match &events[0] {
        StateEvent::ObjectsLoaded { bucket, objects, is_truncated, continuation_token, .. } => {
            assert_eq!(bucket, "x");
            assert_eq!(objects.len(), 1);
            assert!(!is_truncated);
            assert_eq!(continuation_token, "");
        }
        other => panic!("unexpected event {:?}", other),
    }
    assert_eq!(e.get_cached_region("x"), "eu-west-1");

    let retry = e.process_list_objects("x", "p/", "tok", "eu-west-1", 1, 301, redirect);
    assert_eq!(retry, None);
    let events = e.take_events();
    assert!(matches!(
        &events[0],
        StateEvent::ObjectsLoadError { prefix, error_message, .. }
            if prefix == "p/" && error_message == "PermanentRedirect: "
    ));
}

#[test]
fn listing_responses_become_events() {
    let mut e = engine();
    assert_eq!(e.process_list_objects("b", "p/", "t", "r", 0, 0, "CANCELLED"), None);
    assert!(e.take_events().is_empty());
    assert_eq!(e.process_list_objects("b", "p/", "t", "r", 0, 0, "ERROR: timed out"), None);
    assert!(matches!(
        &e.take_events()[0],
        StateEvent::ObjectsLoadError { error_message, .. } if error_message == "ERROR: timed out"
    ));
    let page = "<IsTruncated>true</IsTruncated><NextContinuationToken>n</NextContinuationToken>";
    assert_eq!(e.process_list_objects("b", "p/", "t", "r", 0, 200, page), None);
    assert!(matches!(
        &e.take_events()[0],
        StateEvent::ObjectsLoaded { continuation_token, next_continuation_token, is_truncated, .. }
            if continuation_token == "t" && next_continuation_token == "n" && *is_truncated
    ));
    assert_eq!(e.get_cached_region("b"), "r");
}

#[test]
fn bucket_listing_responses_become_events() {
    let mut e = engine();
    e.process_list_buckets(0, "ERROR: no route");
    e.process_list_buckets(
        403,
        "<Error><Code>InvalidAccessKeyId</Code><Message>bad</Message></Error>",
    );
    e.process_list_buckets(200, "<Bucket><Name>one</Name></Bucket>");
    let events = e.take_events();
    assert!(matches!(
        &events[0],
        StateEvent::BucketsLoadError { error_message } if error_message == "ERROR: no route"
    ));
    assert!(matches!(
        &events[1],
        StateEvent::BucketsLoadError { error_message } if error_message == "InvalidAccessKeyId: bad"
    ));
    assert!(matches!(&events[2], StateEvent::BucketsLoaded { buckets } if buckets.len() == 1));
}

#[test]
fn invalid_range_on_an_empty_object_is_empty_content() {
    let mut e = engine();
    let body = "<Error><Code>InvalidRange</Code><Message>The requested range is not satisfiable</Message></Error>";
    assert_eq!(e.process_get_object("b", "empty.txt", "us-east-1", 0, 416, body), None);
    let events = e.take_events();
    assert_eq!(events.len(), 1);
    assert!(matches!(
        &events[0],
        StateEvent::ObjectContentLoaded { bucket, key, content }
            if bucket == "b" && key == "empty.txt" && content.is_empty()
    ));
}

#[test]
fn object_responses_become_events() {
    let mut e = engine();
    assert_eq!(e.process_get_object("b", "k", "r", 0, 0, "CANCELLED"), None);
    assert!(e.take_events().is_empty());
    assert_eq!(e.process_get_object("b", "k", "r", 0, 0, "ERROR: reset"), None);
    assert_eq!(e.process_get_object("b", "k", "r", 0, 404, "<Code>NoSuchKey</Code>"), None);
    assert_eq!(e.process_get_object("b", "k", "r", 0, 200, "héllo"), None);
    let events = e.take_events();
    assert!(matches!(
        &events[0],
        StateEvent::ObjectContentLoadError { error_message, .. } if error_message == "ERROR: reset"
    ));
    assert!(matches!(
        &events[1],
        StateEvent::ObjectContentLoadError { error_message, .. } if error_message == "NoSuchKey: "
    ));
    assert!(matches!(
        &events[2],
        StateEvent::ObjectContentLoaded { content, .. } if content == "héllo".as_bytes()
    ));
    assert_eq!(e.get_cached_region("b"), "r");
}

#[test]
fn range_responses_become_events() {
    let mut e = engine();
    let retry =
        e.process_get_object_range("b", "k", 10, "r", 0, 206, Some("bytes 10-13/400"), b"\xffabc");
    assert_eq!(retry, None);
    let retry = e.process_get_object_range("b", "k", 10, "r", 0, 403, None, b"<Code>Denied</Code>");
    assert_eq!(retry, None);
    e.report_range_error("b", "k", 10, "broken pipe");
    let events = e.take_events();
    assert!(matches!(
        &events[0],
        StateEvent::ObjectRangeLoaded { start_byte: 10, total_size: 400, data, .. }
            if data == b"\xffabc"
    ));
    assert!(matches!(
        &events[1],
        StateEvent::ObjectRangeLoadError { start_byte: 10, error_message, .. }
            if error_message == "Denied: "
    ));
    assert!(matches!(
        &events[2],
        StateEvent::ObjectRangeLoadError { error_message, .. }
            if error_message == "ERROR: broken pipe"
    ));
}

#[test]
fn streaming_delivers_full_chunks_and_then_the_rest() {
    let mut e = engine();
    let mut download = StreamingDownload::new("b", "k", 100, 1_000_000, 206);
    let first = vec![1u8; STREAMING_CHUNK_SIZE - 1];
    assert!(e.push_chunk(&mut download, &first));
    assert!(e.take_events().is_empty());
    let second = vec![2u8; STREAMING_CHUNK_SIZE + 11];
    assert!(e.push_chunk(&mut download, &second));
    let events = e.take_events();
    assert_eq!(events.len(), 2);
    match &events[0] {
        StateEvent::ObjectRangeLoaded { start_byte, total_size, data, .. } => {
            assert_eq!(*start_byte, 100);
            assert_eq!(*total_size, 1_000_000);
            assert_eq!(data.len(), STREAMING_CHUNK_SIZE);
            assert_eq!(data[STREAMING_CHUNK_SIZE - 2], 1);
            assert_eq!(data[STREAMING_CHUNK_SIZE - 1], 2);
        }
        other => panic!("unexpected event {:?}", other),
    }
    assert!(matches!(
        &events[1],
        StateEvent::ObjectRangeLoaded { start_byte, data, .. }
            if *start_byte == 100 + STREAMING_CHUNK_SIZE && data.len() == STREAMING_CHUNK_SIZE
    ));
    assert_eq!(download.buffer.len(), 10);
    assert_eq!(download.bytes_received, 2 * STREAMING_CHUNK_SIZE);

    assert_eq!(e.process_get_object_streaming(download, "eu-west-1", 0), None);
    let events = e.take_events();
    assert_eq!(events.len(), 1);
    assert!(matches!(
        &events[0],
        StateEvent::ObjectRangeLoaded { start_byte, data, .. }
            if *start_byte == 100 + 2 * STREAMING_CHUNK_SIZE && data == &vec![2u8; 10]
    ));
    assert_eq!(e.get_cached_region("b"), "eu-west-1");
}

#[test]
fn streaming_detects_an_error_body_at_the_end() {
    let mut e = engine();
    let mut download = StreamingDownload::new("b", "k", 0, 10, 503);
    assert!(e.push_chunk(&mut download, b"<Error><Code>SlowDown</Code>"));
    assert!(e.push_chunk(&mut download, b"<Message>later</Message></Error>"));
    assert_eq!(e.process_get_object_streaming(download, "r", 0), None);
    let events = e.take_events();
    assert!(matches!(
        &events[0],
        StateEvent::ObjectRangeLoadError { start_byte: 0, error_message, .. }
            if error_message == "SlowDown: later"
    ));
    assert_eq!(e.get_cached_region("b"), "");

    let empty = StreamingDownload::new("b", "k", 0, 0, 200);
    assert_eq!(e.process_get_object_streaming(empty, "r", 0), None);
    assert!(e.take_events().is_empty());
    assert_eq!(e.get_cached_region("b"), "r");
}

#[test]
fn streaming_refuses_a_position_beyond_the_range_of_usize() {
    let mut e = engine();
    let mut download = StreamingDownload::new("b", "k", usize::MAX - 3, 0, 206);
    assert!(!e.push_chunk(&mut download, b"abcd"));
    assert!(download.buffer.is_empty());
    assert!(e.push_chunk(&mut download, b"abc"));
    assert_eq!(download.buffer, b"abc");
}

#[test]
fn cancelled_items_are_dropped_when_work_is_taken() {
    let mut e = engine();
    let flag = e.new_cancel_flag();
    let live = e.new_cancel_flag();
    e.list_objects("b", "a/", "", Some(flag));
    e.list_objects("b", "b/", "", Some(live));
    e.list_objects("b", "c/", "", Some(flag));
    e.cancel(flag);
    assert_eq!(
        drain(&mut e, true),
        vec![format!("list b/b/ token= flag=Some({:?})", live)]
    );
}

#[test]
fn requests_carry_the_range_header_behind_the_signed_headers() {
    let time = civil_from_unix(1369353600);
    let p = profile("us-east-1");
    let item = WorkItem::GetObject {
        bucket: "b".to_string(),
        key: "dir/file.txt".to_string(),
        max_bytes: Some(65536),
        cancel_flag: None,
    };
    let request = build_request(&item, &p, "eu-west-1", &time).unwrap();
    assert_eq!(request.url, "https://b.s3.eu-west-1.amazonaws.com/dir/file.txt");
    assert_eq!(
        request.headers.last().unwrap(),
        &("Range".to_string(), "bytes=0-65535".to_string())
    );
    assert_eq!(request.headers.len(), 5);
    assert!(request.headers[0].1.contains("SignedHeaders=host;x-amz-content-sha256;x-amz-date,"));

    let whole = WorkItem::GetObject {
        bucket: "b".to_string(),
        key: "dir/file.txt".to_string(),
        max_bytes: None,
        cancel_flag: None,
    };
    let unlimited = build_request(&whole, &p, "eu-west-1", &time).unwrap();
    assert_eq!(unlimited.url, request.url);
    assert_eq!(unlimited.headers[..], request.headers[..4]);
    assert!(unlimited.headers.iter().all(|(name, _)| name != "Range"));
    let none = WorkItem::GetObject {
        bucket: "b".to_string(),
        key: "dir/file.txt".to_string(),
        max_bytes: Some(0),
        cancel_flag: None,
    };
    assert_eq!(build_request(&none, &p, "eu-west-1", &time).unwrap().headers.len(), 4);

    let list = WorkItem::ListObjects {
        bucket: "b".to_string(),
        prefix: "p/".to_string(),
        continuation_token: String::new(),
        cancel_flag: None,
    };
    let request = build_request(&list, &p, "eu-west-1", &time).unwrap();
    assert_eq!(
        request.url,
        "https://b.s3.eu-west-1.amazonaws.com/?delimiter=%2F&list-type=2&max-keys=1000&prefix=p%2F"
    );
    assert_eq!(request.headers.len(), 4);

    let request = build_request(&WorkItem::ListBuckets, &p, "us-east-1", &time).unwrap();
    assert_eq!(request.url, "https://s3.us-east-1.amazonaws.com/");
}

#[test]
fn range_headers_of_the_work_items() {
    let get = |max_bytes| WorkItem::GetObject {
        bucket: String::new(),
        key: String::new(),
        max_bytes,
        cancel_flag: None,
    };
    assert_eq!(build_range_header(&get(Some(1))), Some("bytes=0-0".to_string()));
    assert_eq!(build_range_header(&get(Some(0))), None);
    assert_eq!(build_range_header(&get(None)), None);
    let range = WorkItem::GetObjectRange {
        bucket: String::new(),
        key: String::new(),
        start_byte: 7,
        end_byte: 1024,
        cancel_flag: None,
    };
    assert_eq!(build_range_header(&range), Some("bytes=7-1024".to_string()));
    let stream = |start_byte| WorkItem::GetObjectStreaming {
        bucket: String::new(),
        key: String::new(),
        start_byte,
        total_size: 0,
        cancel_flag: None,
    };
    assert_eq!(build_range_header(&stream(0)), None);
    assert_eq!(build_range_header(&stream(65536)), Some("bytes=65536-".to_string()));
    assert_eq!(build_range_header(&WorkItem::ListBuckets), None);
}

#[test]
fn the_engine_serves_the_backend_interface() {
    fn exercise<B: Backend>(backend: &mut B) -> bool {
        backend.list_buckets();
        backend.list_objects_prefetch("b", "p/", true);
        backend.prioritize_request("b", "p/")
    }
    let mut e = engine();
    assert!(exercise(&mut e));
    assert_eq!(drain(&mut e, true), vec!["list b/p/ token= flag=None", "buckets"]);
}

#[test]
fn an_error_body_is_found_among_bytes_that_are_no_text() {
    let mut e = engine();
    let body = b"\xff\xfe<Error><Code>Denied</Code><Message>n\xc3\xa3o</Message></Error>";
    assert_eq!(e.process_get_object_range("b", "k", 0, "r", 0, 403, None, body), None);
    let events = e.take_events();
    assert!(matches!(
        &events[0],
        StateEvent::ObjectRangeLoadError { error_message, .. } if error_message == "Denied: não"
    ));
}
