use s6ui::aws::credentials::AWSProfile;
use s6ui::aws::s3_backend::{S3Backend, WorkItem};
use s6ui::browser_model::{BrowserModel, ModelAction};
use s6ui::events::{S3Object, StateEvent};
use s6ui::frecency::{frecency_score, order_desc, record_visit, top_frecent, MAX_RECENT_PATHS};
use s6ui::model::{
    is_preview_supported, make_node_key, make_preview_cache_key, merge_objects, parse_s3_path,
    previewable_extension, FolderNode, NodeStatus,
};
use s6ui::preview::StreamingStatus;
use s6ui::preview_cache::{PreviewCache, MAX_PREVIEWS};
use s6ui::settings::PathEntry;

fn profile(name: &str) -> AWSProfile {
    let mut p = AWSProfile::default();
    p.name = name.to_string();
    p.region = "us-east-1".to_string();
    p
}

fn world() -> (BrowserModel, S3Backend) {
    let mut model = BrowserModel::new();
    model.set_profiles(vec![profile("other"), profile("default")], "default");
    (model, S3Backend::new(profile("default")))
}

fn object(key: &str, is_folder: bool, size: i64) -> S3Object {
    S3Object {
        key: key.to_string(),
        display_name: key.trim_end_matches('/').rsplit('/').next().unwrap().to_string(),
        size,
        last_modified: String::new(),
        is_folder,
    }
}

fn loaded(bucket: &str, prefix: &str, token: &str, objects: Vec<S3Object>, next: &str) -> StateEvent {
    StateEvent::ObjectsLoaded {
        bucket: bucket.to_string(),
        prefix: prefix.to_string(),
        continuation_token: token.to_string(),
        objects,
        next_continuation_token: next.to_string(),
        is_truncated: !next.is_empty(),
    }
}

fn keys(objects: &[S3Object]) -> Vec<&str> {
    objects.iter().map(|o| o.key.as_str()).collect()
}

fn pending(backend: &mut S3Backend, foreground: bool) -> Vec<WorkItem> {
    let mut items = Vec::new();
    while let Some(item) = backend.next_work(foreground) {
        items.push(item);
    }
    items
}

#[test]
fn previewable_kinds_are_told_from_the_extension() {
    assert!(is_preview_supported("notes.txt"));
    assert!(is_preview_supported("dir.v1/README.MD"));
    assert!(is_preview_supported("data.json.gz"));
    assert!(is_preview_supported("data.CSV.ZST"));
    assert!(is_preview_supported("log.jsonl.zstd"));
    assert!(is_preview_supported("photo.jpeg"));
    assert!(is_preview_supported(".gitignore"));
    assert!(!is_preview_supported("archive.gz"));
    assert!(!is_preview_supported(".gz"));
    assert!(!is_preview_supported("binary.exe"));
    assert!(!is_preview_supported("binary.exe.gz"));
    assert!(!is_preview_supported("no_extension"));
    assert!(!is_preview_supported("trailing."));
    assert!(!is_preview_supported(""));
    assert!(previewable_extension(".rs"));
    assert!(!previewable_extension(".RS"));
    assert!(!previewable_extension("rs"));
}

#[test]
fn s3_paths_are_split_into_bucket_and_prefix() {
    let parse = |p: &str| parse_s3_path(p).unwrap();
    assert_eq!(parse("s3://bucket/a/b/"), ("bucket".to_string(), "a/b/".to_string()));
    assert_eq!(parse("s3:bucket/a"), ("bucket".to_string(), "a".to_string()));
    assert_eq!(parse("///bucket"), ("bucket".to_string(), String::new()));
    assert_eq!(parse("bucket/"), ("bucket".to_string(), String::new()));
    assert_eq!(parse("s3://"), (String::new(), String::new()));
    assert_eq!(parse(""), (String::new(), String::new()));
    assert_eq!(make_node_key("b", "p/"), "b/p/");
    assert_eq!(make_preview_cache_key("b", "k"), "b/k");
}

#[test]
fn sorted_view_puts_folders_first_and_is_a_permutation() {
    let mut node = FolderNode::new("b".to_string(), String::new());
    assert_eq!(node.status(), NodeStatus::Empty);
    node.objects = vec![
        object("a.txt", false, 1),
        object("x/", true, 0),
        object("b.txt", false, 2),
        object("y/", true, 0),
    ];
    node.rebuild_sorted_view_if_needed();
    assert_eq!(node.sorted_view, vec![1, 3, 0, 2]);
    assert_eq!(node.folder_count, 2);
    let mut seen = node.sorted_view.clone();
    seen.sort();
    assert_eq!(seen, vec![0, 1, 2, 3]);

    node.objects[1].is_folder = false;
    node.rebuild_sorted_view_if_needed();
    assert_eq!(node.sorted_view, vec![1, 3, 0, 2]);
    node.rebuild_sorted_view();
    assert_eq!(node.sorted_view, vec![3, 0, 1, 2]);
    assert_eq!(node.folder_count, 1);
}

#[test]
fn pagination_keeps_the_first_occurrence_of_each_key() {
    let mut objects = Vec::new();
    merge_objects(&mut objects, vec![object("a", false, 1), object("b", false, 2)], "");
    merge_objects(
        &mut objects,
        vec![object("b", false, 20), object("c", false, 3), object("a", false, 10)],
        "token",
    );
    assert_eq!(keys(&objects), vec!["a", "b", "c"]);
    assert_eq!(objects[1].size, 2);
    merge_objects(&mut objects, vec![object("z", false, 9)], "");
    assert_eq!(keys(&objects), vec!["z"]);
}

#[test]
fn listing_a_folder_with_a_sub_folder() {
    let (mut model, mut backend) = world();
    model.navigate_to(&mut backend, "s3://b/", 1000);
    assert_eq!(model.current_bucket(), "b");
    assert!(model.get_node("b", "").unwrap().loading);
    let items = pending(&mut backend, true);
    assert_eq!(items.len(), 1);
    assert!(matches!(
        &items[0],
        WorkItem::ListObjects { bucket, prefix, continuation_token, .. }
            if bucket == "b" && prefix.is_empty() && continuation_token.is_empty()
    ));

    let body = "<ListBucketResult><IsTruncated>false</IsTruncated><CommonPrefixes><Prefix>logs/</Prefix></CommonPrefixes><Contents><Key>readme.txt</Key><Size>12</Size><LastModified>2024-01-01T00:00:00Z</LastModified></Contents></ListBucketResult>";
    assert_eq!(backend.process_list_objects("b", "", "", "us-east-1", 0, 200, body), None);
    assert!(model.process_events(&mut backend));
    assert!(!model.process_events(&mut backend));

    model.rebuild_sorted_view("b", "");
    let node = model.get_node("b", "").unwrap();
    assert_eq!(node.status(), NodeStatus::Complete);
    assert!(!node.loading);
    assert_eq!(node.objects.len(), 2);
    assert_eq!(
        (node.objects[0].key.as_str(), node.objects[0].display_name.as_str(), node.objects[0].size),
        ("logs/", "logs", 0)
    );
    assert!(node.objects[0].is_folder);
    assert_eq!((node.objects[1].key.as_str(), node.objects[1].size), ("readme.txt", 12));
    assert_eq!(node.sorted_view, vec![0, 1]);
    assert_eq!(node.folder_count, 1);

    let prefetches = pending(&mut backend, false);
    assert_eq!(prefetches.len(), 1);
    assert!(matches!(
        &prefetches[0],
        WorkItem::ListObjects { prefix, cancel_flag: None, .. } if prefix == "logs/"
    ));
}

#[test]
fn a_truncated_listing_of_the_current_folder_is_continued() {
    let (mut model, mut backend) = world();
    model.navigate_into(&mut backend, "b", "p/", 0);
    pending(&mut backend, true);
    backend.push_event(loaded("b", "p/", "", vec![object("p/a", false, 1)], "next"));
    backend.push_event(loaded("b", "other/", "", vec![object("other/x", false, 1)], "more"));
    model.process_events(&mut backend);
    let node = model.get_node("b", "p/").unwrap();
    assert_eq!(node.status(), NodeStatus::Partial);
    assert!(node.loading);
    assert_eq!(model.get_node("b", "other/").unwrap().status(), NodeStatus::Partial);
    assert!(!model.get_node("b", "other/").unwrap().loading);
    let items = pending(&mut backend, true);
    assert_eq!(items.len(), 1);
    assert!(matches!(
        &items[0],
        WorkItem::ListObjects { prefix, continuation_token, cancel_flag: Some(_), .. }
            if prefix == "p/" && continuation_token == "next"
    ));

    backend.push_event(loaded("b", "p/", "next", vec![object("p/a", false, 9), object("p/b", false, 2)], ""));
    model.process_events(&mut backend);
    let node = model.get_node("b", "p/").unwrap();
    assert_eq!(node.status(), NodeStatus::Complete);
    assert_eq!(keys(&node.objects), vec!["p/a", "p/b"]);
    assert_eq!(node.objects[0].size, 1);
    assert!(pending(&mut backend, true).is_empty());
    model.load_more(&mut backend, "b", "p/");
    model.load_more(&mut backend, "b", "missing/");
    assert!(pending(&mut backend, true).is_empty());
}

#[test]
fn a_failed_listing_keeps_the_data_it_had() {
    let (mut model, mut backend) = world();
    backend.push_event(StateEvent::ObjectsLoadError {
        bucket: "b".to_string(),
        prefix: "new/".to_string(),
        error_message: "AccessDenied: no".to_string(),
    });
    backend.push_event(loaded("b", "old/", "", vec![object("old/a", false, 1)], ""));
    backend.push_event(StateEvent::ObjectsLoadError {
        bucket: "b".to_string(),
        prefix: "old/".to_string(),
        error_message: "SlowDown: later".to_string(),
    });
    model.process_events(&mut backend);
    let new = model.get_node("b", "new/").unwrap();
    assert_eq!(new.status(), NodeStatus::Error);
    assert_eq!(new.error, "AccessDenied: no");
    let old = model.get_node("b", "old/").unwrap();
    assert_eq!(old.status(), NodeStatus::Complete);
    assert_eq!(old.error, "SlowDown: later");
    assert_eq!(keys(&old.objects), vec!["old/a"]);
}

#[test]
fn prefetch_on_hover_is_boosted_by_a_click() {
    let (mut model, mut backend) = world();
    model.prefetch_folder(&mut backend, "b", "p/");
    model.prefetch_folder(&mut backend, "b", "p/");
    assert!(model.get_node("b", "p/").unwrap().loading);
    assert!(backend.has_pending_request("b", "p/"));

    model.load_folder(&mut backend, "b", "p/");
    let high = pending(&mut backend, true);
    assert_eq!(high.len(), 1);
    assert!(matches!(
        &high[0],
        WorkItem::ListObjects { prefix, cancel_flag: None, .. } if prefix == "p/"
    ));
    assert!(pending(&mut backend, false).is_empty());

    backend.push_event(loaded("b", "p/", "", vec![object("p/a", false, 1)], ""));
    model.process_events(&mut backend);
    assert_eq!(model.get_node("b", "p/").unwrap().status(), NodeStatus::Complete);
    model.load_folder(&mut backend, "b", "p/");
    assert!(pending(&mut backend, true).is_empty());
}

#[test]
fn hovering_elsewhere_resets_the_folder_hovered_before() {
    let (mut model, mut backend) = world();
    model.prefetch_folder(&mut backend, "b", "one/");
    model.prefetch_folder(&mut backend, "b", "two/");
    assert!(!model.get_node("b", "one/").unwrap().loading);
    assert!(model.get_node("b", "two/").unwrap().loading);
    let low = pending(&mut backend, false);
    assert_eq!(low.len(), 1);
    assert!(matches!(&low[0], WorkItem::ListObjects { prefix, .. } if prefix == "two/"));
}

#[test]
fn at_most_twenty_sub_folders_are_prefetched() {
    let (mut model, mut backend) = world();
    model.navigate_into(&mut backend, "b", "", 0);
    pending(&mut backend, true);
    let mut objects: Vec<S3Object> = (0..25).map(|i| object(&format!("d{:02}/", i), true, 0)).collect();
    objects.insert(3, object("file.txt", false, 5));
    backend.push_event(loaded("b", "d01/", "", vec![], ""));
    backend.push_event(loaded("b", "", "", objects, ""));
    model.process_events(&mut backend);
    let prefetched: Vec<String> = pending(&mut backend, false)
        .into_iter()
        .map(|item| match item {
            WorkItem::ListObjects { prefix, .. } => prefix,
            other => panic!("unexpected item {:?}", other),
        })
        .collect();
    assert_eq!(prefetched.len(), 20);
    assert_eq!(prefetched[19], "d00/");
    assert_eq!(prefetched[18], "d02/");
    assert_eq!(prefetched[0], "d20/");
    assert!(!prefetched.contains(&"d01/".to_string()));
}

#[test]
fn navigation_moves_the_current_path_and_clears_the_selection() {
    let (mut model, mut backend) = world();
    assert!(model.is_at_root());
    model.navigate_to(&mut backend, "s3://b/a/b/c/", 10);
    assert_eq!((model.current_bucket(), model.current_prefix()), ("b", "a/b/c/"));
    assert_eq!(model.buckets().len(), 1);
    assert_eq!(model.buckets()[0].name, "b");
    assert_eq!(model.buckets()[0].creation_date, "(manually added)");
    model.select_file(&mut backend, "b", "a/b/c/x.txt");
    assert!(model.has_selection());
    model.navigate_up(&mut backend, 11);
    assert_eq!(model.current_prefix(), "a/b/");
    assert!(!model.has_selection());
    model.navigate_up(&mut backend, 12);
    model.navigate_up(&mut backend, 13);
    assert_eq!(model.current_prefix(), "");
    assert!(!model.is_at_root());
    model.navigate_up(&mut backend, 14);
    assert!(model.is_at_root());
    model.navigate_up(&mut backend, 15);
    assert!(model.is_at_root());
    model.navigate_to(&mut backend, "s3://b/", 16);
    model.navigate_to(&mut backend, "s3://", 17);
    assert!(model.is_at_root());
    assert_eq!(model.buckets().len(), 1);
}

#[test]
fn frecency_orders_recent_paths_by_visits_and_age() {
    let (mut model, mut backend) = world();
    model.navigate_to(&mut backend, "s3://x/a/", 1_000_000);
    model.navigate_to(&mut backend, "s3://x/b/", 1_000_020);
    model.navigate_to(&mut backend, "s3://x/a/", 1_000_040);
    assert_eq!(
        model.top_frecent_paths(&backend, 2, 1_000_059),
        vec!["s3://x/a/".to_string(), "s3://x/b/".to_string()]
    );
    assert_eq!(model.top_frecent_paths(&backend, 1, 1_000_059), vec!["s3://x/a/".to_string()]);
    assert_eq!(model.top_frecent_paths(&backend, 9, 1_000_059).len(), 2);
    assert!(model.top_frecent_paths(&backend, 0, 1_000_059).is_empty());
    assert_eq!(model.settings.frecent_paths.len(), 1);
    assert_eq!(model.settings.frecent_paths[0].profile, "default");
    assert_eq!(model.settings.frecent_paths[0].entries[0].score, 2);
    assert_eq!(model.settings.frecent_paths[0].entries[0].last_accessed, 1_000_040);

    model.select_profile(&mut backend, 0);
    assert!(model.top_frecent_paths(&backend, 2, 1_000_059).is_empty());
    model.record_recent_path(&backend, "s3://", 5);
    model.record_recent_path(&backend, "", 5);
    assert!(model.top_frecent_paths(&backend, 2, 1_000_059).is_empty());
}

#[test]
fn frecency_weights_follow_the_age_of_the_last_visit() {
    let entry = |score, last_accessed| PathEntry { path: String::new(), score, last_accessed };
    assert_eq!(frecency_score(&entry(3, 1000), 1000 + 3599), 24);
    assert_eq!(frecency_score(&entry(3, 1000), 1000 + 3600), 12);
    assert_eq!(frecency_score(&entry(3, 1000), 1000 + 86400), 6);
    assert_eq!(frecency_score(&entry(3, 1000), 1000 + 604800), 3);
    assert_eq!(frecency_score(&entry(3, 1000), 0), 24);
    assert_eq!(frecency_score(&entry(u64::MAX, i64::MIN), i64::MAX), u64::MAX as u128);
    assert_eq!(order_desc(&vec![1, 5, 5, 0, 9]), vec![4, 1, 2, 0, 3]);

    let entries = vec![
        PathEntry { path: "old-but-frequent".to_string(), score: 5, last_accessed: 0 },
        PathEntry { path: "fresh".to_string(), score: 1, last_accessed: 700_000 },
        PathEntry { path: "yesterday".to_string(), score: 2, last_accessed: 650_000 },
    ];
    assert_eq!(
        top_frecent(&entries, 700_100, 3),
        vec!["fresh".to_string(), "yesterday".to_string(), "old-but-frequent".to_string()]
    );
}

#[test]
fn recent_paths_are_trimmed_to_the_most_visited() {
    let mut entries: Vec<PathEntry> = Vec::new();
    for i in 0..MAX_RECENT_PATHS {
        record_visit(&mut entries, &format!("p{}", i), 10);
        record_visit(&mut entries, &format!("p{}", i), 11);
    }
    assert_eq!(entries.len(), MAX_RECENT_PATHS);
    record_visit(&mut entries, "newcomer", 12);
    assert_eq!(entries.len(), MAX_RECENT_PATHS);
    assert!(entries.iter().all(|e| e.path != "newcomer"));
    assert_eq!(entries[0].path, "p0");
    assert_eq!(entries[0].score, 2);
}

#[test]
fn selecting_a_file_streams_it_into_a_preview() {
    let (mut model, mut backend) = world();
    model.navigate_into(&mut backend, "b", "", 0);
    backend.push_event(loaded("b", "", "", vec![object("notes.txt", false, 12)], ""));
    model.process_events(&mut backend);
    pending(&mut backend, true);

    model.select_file(&mut backend, "b", "notes.txt");
    assert_eq!((model.selected_bucket(), model.selected_key()), ("b", "notes.txt"));
    assert_eq!(model.selected_file_size(), 12);
    assert!(model.preview_supported());
    assert!(model.preview_loading());
    assert!(model.is_streaming_enabled());
    assert!(model.has_streaming_preview());
    assert_eq!(model.streaming_preview().unwrap().status(), StreamingStatus::Downloading);
    let items = pending(&mut backend, true);
    assert_eq!(items.len(), 1);
    assert!(matches!(
        &items[0],
        WorkItem::GetObjectStreaming { key, start_byte: 0, total_size: 12, cancel_flag: Some(_), .. }
            if key == "notes.txt"
    ));

    backend.push_event(StateEvent::ObjectRangeLoaded {
        bucket: "b".to_string(),
        key: "notes.txt".to_string(),
        start_byte: 0,
        total_size: 12,
        data: b"one\ntwo\n".to_vec(),
    });
    backend.push_event(StateEvent::ObjectRangeLoaded {
        bucket: "b".to_string(),
        key: "notes.txt".to_string(),
        start_byte: 99,
        total_size: 12,
        data: b"out of order".to_vec(),
    });
    backend.push_event(StateEvent::ObjectRangeLoaded {
        bucket: "b".to_string(),
        key: "notes.txt".to_string(),
        start_byte: 8,
        total_size: 12,
        data: b"end\n".to_vec(),
    });
    model.process_events(&mut backend);
    assert!(!model.preview_loading());
    let id = model.selected_entry().unwrap().id;
    let actions = model.take_actions();
    assert_eq!(actions.len(), 3);
    assert!(matches!(
        &actions[0],
        ModelAction::CreateScratch { preview_id } if *preview_id == id
    ));
    assert!(matches!(
        &actions[1],
        ModelAction::WriteScratch { preview_id, offset: 0, data } if *preview_id == id && data == b"one\ntwo\n"
    ));
    assert!(matches!(
        &actions[2],
        ModelAction::WriteScratch { offset: 8, data, .. } if data == b"end\n"
    ));
    let preview = model.streaming_preview().unwrap();
    assert!(preview.is_complete());
    assert_eq!(preview.line_offsets(), vec![0, 4, 8, 12]);
    assert_eq!(preview.get_line(b"one\ntwo\nend\n", 2), b"end");

    model.select_file(&mut backend, "b", "other.txt");
    assert!(pending(&mut backend, true).len() == 1);
    model.clear_selection(&mut backend);
    assert!(!model.has_selection());
    assert!(!model.is_streaming_enabled());
    assert_eq!(model.preview_count(), 2);
}

#[test]
fn a_hovered_file_is_prefetched_and_continued_on_request() {
    let (mut model, mut backend) = world();
    model.navigate_into(&mut backend, "b", "", 0);
    backend.push_event(loaded("b", "", "", vec![object("big.log", false, 100)], ""));
    model.process_events(&mut backend);
    pending(&mut backend, true);

    model.prefetch_file_preview(&mut backend, "b", "big.log");
    model.prefetch_file_preview(&mut backend, "b", "big.log");
    model.prefetch_file_preview(&mut backend, "b", "binary.exe");
    let low = pending(&mut backend, false);
    assert_eq!(low.len(), 1);
    assert!(matches!(
        &low[0],
        WorkItem::GetObject { key, max_bytes: Some(65536), cancel_flag: Some(_), .. } if key == "big.log"
    ));

    model.select_file(&mut backend, "b", "big.log");
    assert!(model.preview_loading());
    assert_eq!(model.streaming_preview().unwrap().status(), StreamingStatus::Prefetching);
    model.continue_download(&mut backend);
    assert!(pending(&mut backend, true).is_empty());

    backend.push_event(StateEvent::ObjectContentLoaded {
        bucket: "b".to_string(),
        key: "big.log".to_string(),
        content: vec![b'x'; 64],
    });
    model.process_events(&mut backend);
    assert!(!model.preview_loading());
    assert_eq!(model.streaming_preview().unwrap().status(), StreamingStatus::PrefetchReady);
    assert_eq!(model.streaming_preview().unwrap().source_bytes(), 64);
    let actions = model.take_actions();
    assert_eq!(actions.len(), 2);
    assert!(matches!(&actions[0], ModelAction::CreateScratch { .. }));
    assert!(matches!(&actions[1], ModelAction::WriteScratch { offset: 0, data, .. } if data.len() == 64));

    model.continue_download(&mut backend);
    assert_eq!(model.streaming_preview().unwrap().status(), StreamingStatus::Downloading);
    let high = pending(&mut backend, true);
    assert_eq!(high.len(), 1);
    assert!(matches!(
        &high[0],
        WorkItem::GetObjectStreaming { start_byte: 64, total_size: 100, .. }
    ));
    model.continue_download(&mut backend);
    assert!(pending(&mut backend, true).is_empty());
}

#[test]
fn failures_of_the_selected_preview_are_shown() {
    let (mut model, mut backend) = world();
    model.select_file(&mut backend, "b", "a.txt");
    backend.push_event(StateEvent::ObjectRangeLoadError {
        bucket: "b".to_string(),
        key: "elsewhere.txt".to_string(),
        start_byte: 0,
        error_message: "ignored".to_string(),
    });
    model.process_events(&mut backend);
    assert_eq!(model.preview_error(), "");
    assert!(model.preview_loading());
    backend.push_event(StateEvent::ObjectContentLoadError {
        bucket: "b".to_string(),
        key: "a.txt".to_string(),
        error_message: "NoSuchKey: gone".to_string(),
    });
    model.process_events(&mut backend);
    assert_eq!(model.preview_error(), "NoSuchKey: gone");
    assert!(!model.preview_loading());
    assert_eq!(
        model.streaming_preview().unwrap().status(),
        StreamingStatus::Error("NoSuchKey: gone".to_string())
    );
}

#[test]
fn unsupported_files_get_a_marker() {
    let (mut model, mut backend) = world();
    model.select_file(&mut backend, "b", "binary.exe");
    assert!(!model.preview_supported());
    assert!(!model.preview_loading());
    assert!(!model.has_streaming_preview());
    let entry = model.selected_entry().unwrap();
    assert!(entry.unsupported);
    assert!(entry.preview.is_none());
    assert!(pending(&mut backend, true).is_empty());
}

#[test]
fn preview_cache_is_bounded_and_keeps_the_selected_entry() {
    let (mut model, mut backend) = world();
    model.select_file(&mut backend, "b", "selected.txt");
    let selected_id = model.selected_entry().unwrap().id;
    for i in 0..(MAX_PREVIEWS + 10) {
        model.prefetch_file_preview(&mut backend, "b", &format!("f{}.txt", i));
        assert!(model.preview_count() <= MAX_PREVIEWS);
    }
    assert_eq!(model.preview_count(), MAX_PREVIEWS);
    assert_eq!(model.selected_entry().unwrap().id, selected_id);
    let mut created: Vec<u64> = Vec::new();
    let mut deleted: Vec<u64> = Vec::new();
    for action in model.take_actions() {
        match action {
            ModelAction::CreateScratch { preview_id } => {
                assert!(!deleted.contains(&preview_id));
                created.push(preview_id);
            }
            ModelAction::DeleteScratch { preview_id } => {
                assert!(created.contains(&preview_id));
                deleted.push(preview_id);
            }
            other => panic!("unexpected action {:?}", other),
        }
    }
    assert_eq!(created, (0..=(MAX_PREVIEWS as u64 + 10)).collect::<Vec<u64>>());
    assert_eq!(deleted, (1..=11).collect::<Vec<u64>>());

    model.refresh(&mut backend);
    assert_eq!(model.preview_count(), 0);
    assert!(model.selected_entry().is_none());
    assert!(!model.has_streaming_preview());
    let deleted = model.take_actions();
    assert_eq!(deleted.len(), MAX_PREVIEWS);
    assert!(deleted
        .iter()
        .any(|a| matches!(a, ModelAction::DeleteScratch { preview_id } if *preview_id == selected_id)));
    assert!(model.buckets_loading());
}

#[test]
fn the_cache_evicts_the_entry_accessed_longest_ago() {
    let mut cache = PreviewCache::new();
    for i in 0..MAX_PREVIEWS {
        assert!(cache.insert_entry("b", &format!("k{}", i), None, "b", "k0").is_empty());
    }
    cache.touch(1);
    let removed = cache.insert_entry("b", "new", None, "b", "k0");
    assert_eq!(removed, vec![2]);
    assert_eq!(cache.entries.len(), MAX_PREVIEWS);
    assert!(cache.find("b", "k0").is_some());
    assert!(cache.find("b", "k1").is_some());
    assert!(cache.find("b", "k2").is_none());
    let cleared = cache.clear();
    assert_eq!(cleared.len(), MAX_PREVIEWS);
    assert_eq!(cleared[0], MAX_PREVIEWS as u64);
    assert_eq!(cleared[MAX_PREVIEWS - 1], 0);
    assert!(!cleared.contains(&2));
    assert!(cache.entries.is_empty());
    assert!(cache.insert_entry("b", "again", None, "", "").is_empty());
    assert_eq!(cache.entries[0].id, MAX_PREVIEWS as u64 + 1);
}

#[test]
fn bucket_events_and_profiles() {
    let (mut model, mut backend) = world();
    assert_eq!(model.selected_profile_index(), 1);
    assert_eq!(model.profiles().len(), 2);
    model.refresh(&mut backend);
    assert!(matches!(pending(&mut backend, true)[..], [WorkItem::ListBuckets]));
    backend.process_list_buckets(
        200,
        "<Bucket><Name>one</Name></Bucket><Bucket><Name>two</Name></Bucket>",
    );
    model.process_events(&mut backend);
    assert!(!model.buckets_loading());
    assert_eq!(model.buckets().len(), 2);
    backend.process_list_buckets(0, "ERROR: offline");
    model.process_events(&mut backend);
    assert_eq!(model.buckets_error(), "ERROR: offline");
    assert_eq!(model.buckets().len(), 2);

    model.navigate_into(&mut backend, "one", "", 0);
    model.select_profile(&mut backend, 5);
    model.select_profile(&mut backend, 1);
    assert_eq!(model.current_bucket(), "one");
    model.select_profile(&mut backend, 0);
    assert_eq!(model.selected_profile_index(), 0);
    assert!(model.is_at_root());
    assert!(model.buckets().is_empty());
    assert!(model.get_node("one", "").is_none());
}

#[test]
fn zstd_objects_are_previewed_through_the_decoder() {
    let payload: Vec<u8> = (0..5000).map(|i| b"line of text\n"[i % 13]).collect();
    let compressed = zstd::encode_all(&payload[..], 3).unwrap();
    let (mut model, mut backend) = world();
    model.navigate_into(&mut backend, "b", "", 0);
    backend.push_event(loaded("b", "", "", vec![object("data.txt.zst", false, compressed.len() as i64)], ""));
    model.process_events(&mut backend);
    model.select_file(&mut backend, "b", "data.txt.zst");
    let mut offset = 0;
    for chunk in compressed.chunks(100) {
        backend.push_event(StateEvent::ObjectRangeLoaded {
            bucket: "b".to_string(),
            key: "data.txt.zst".to_string(),
            start_byte: offset,
            total_size: compressed.len(),
            data: chunk.to_vec(),
        });
        offset += chunk.len();
    }
    model.process_events(&mut backend);
    let mut file = Vec::new();
    let mut created = 0;
    for action in model.take_actions() {
        match action {
            ModelAction::CreateScratch { .. } => {
                assert!(file.is_empty());
                created += 1;
            }
            ModelAction::WriteScratch { offset, data, .. } => {
                assert_eq!(offset, file.len());
                file.extend(data);
            }
            other => panic!("unexpected action {:?}", other),
        }
    }
    assert_eq!(created, 1);
    assert_eq!(file, payload);
    let preview = model.streaming_preview().unwrap();
    assert!(preview.is_complete());
    assert_eq!(preview.bytes_written(), payload.len());
    assert_eq!(preview.get_line(&file, 1), b"line of text");
}

#[test]
fn the_extension_before_a_compression_extension_decides() {
    assert!(s6ui::model::supported_by_extensions(".txt", true, None));
    assert!(s6ui::model::supported_by_extensions(".txt", true, Some(".exe")));
    assert!(s6ui::model::supported_by_extensions(".txt", false, None));
    assert!(!s6ui::model::supported_by_extensions(".exe", true, Some(".txt")));
    assert!(s6ui::model::supported_by_extensions(".gz", true, Some(".txt")));
    assert!(s6ui::model::supported_by_extensions(".zst", true, Some(".json")));
    assert!(s6ui::model::supported_by_extensions(".zstd", true, Some(".log")));
    assert!(!s6ui::model::supported_by_extensions(".gz", true, Some(".exe")));
    assert!(!s6ui::model::supported_by_extensions(".gz", true, None));
    assert!(!s6ui::model::supported_by_extensions(".gz", false, None));
    assert!(!s6ui::model::supported_by_extensions(".gz", false, Some(".txt")));
    assert!(!s6ui::model::supported_by_extensions(".gzip", true, Some(".txt")));
    assert!(!s6ui::model::supported_by_extensions(".GZ", true, Some(".txt")));
    assert!(!s6ui::model::supported_by_extensions(".gz", true, Some(".TXT")));
    assert!(is_preview_supported("a.TXT.GZ"));
    assert!(is_preview_supported("dir.d/a.log.zst"));
    assert!(!is_preview_supported("archive.gz"));
    assert!(!is_preview_supported(".gz"));
    assert!(!is_preview_supported("a.bin.gz"));
}

#[test]
fn a_refresh_forgets_every_preview_and_the_selected_file_can_be_opened_again() {
    let (mut model, mut backend) = world();
    model.select_file(&mut backend, "b", "notes.txt");
    model.prefetch_file_preview(&mut backend, "b", "other.txt");
    model.select_file(&mut backend, "b", "picture.exe");
    assert_eq!(model.preview_count(), 3);
    model.take_actions();
    pending(&mut backend, true);
    pending(&mut backend, false);

    model.refresh(&mut backend);
    assert_eq!(model.preview_count(), 0);
    assert_eq!(model.selected_key(), "picture.exe");
    let actions = model.take_actions();
    assert_eq!(actions.len(), 3);
    assert!(actions.iter().all(|a| matches!(a, ModelAction::DeleteScratch { .. })));

    model.select_file(&mut backend, "b", "picture.exe");
    assert_eq!(model.preview_count(), 1);
    assert!(model.selected_entry().unwrap().unsupported);
    assert!(model.take_actions().is_empty());

    model.select_file(&mut backend, "b", "notes.txt");
    assert!(model.has_streaming_preview());
    assert!(matches!(model.take_actions()[..], [ModelAction::CreateScratch { preview_id: 4 }]));
    model.select_file(&mut backend, "b", "notes.txt");
    assert_eq!(model.preview_count(), 2);
    assert!(model.take_actions().is_empty());
}
