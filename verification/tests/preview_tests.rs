use s6ui::preview::{
    AppendOutcome, Compression, GzipTransform, IdentityTransform, StreamingFilePreview,
    StreamingStatus, Transform,
};
use s6ui::streaming_preview::{PassThroughTransform, StreamTransform};
use std::io::Write;

fn gzip(payload: &[u8]) -> Vec<u8> {
    let mut encoder = flate2::write::GzEncoder::new(Vec::new(), flate2::Compression::default());
    encoder.write_all(payload).unwrap();
    encoder.finish().unwrap()
}

fn written(outcome: AppendOutcome) -> Vec<u8> {
    match outcome {
        AppendOutcome::Written(bytes) => bytes,
        other => panic!("chunk was not taken in: {:?}", other),
    }
}

fn text(bytes: Vec<u8>) -> String {
    String::from_utf8_lossy(&bytes).into_owned()
}

#[test]
fn test_identity_transform() {
    let mut transform = IdentityTransform;
    let input = b"Hello, World!";
    let mut output = Vec::new();
    transform.process(input, &mut output).unwrap();
    assert_eq!(output, input);
}

#[test]
fn test_compression_detection() {
    assert_eq!(Compression::from_filename("file.txt"), Compression::Uncompressed);
    assert_eq!(Compression::from_filename("file.json.gz"), Compression::Gzip);
    assert_eq!(Compression::from_filename("file.log.gzip"), Compression::Gzip);
    assert_eq!(Compression::from_filename("file.csv.zst"), Compression::Zstd);
    assert_eq!(Compression::from_filename("file.data.zstd"), Compression::Zstd);
}

#[test]
fn test_gzip_transform() {
    let compressed = gzip(b"Hello, compressed world!");

    let mut transform = GzipTransform::new();
    let mut output = Vec::new();
    transform.process(&compressed, &mut output).unwrap();
    transform.finish(&mut output).unwrap();

    assert_eq!(String::from_utf8_lossy(&output), "Hello, compressed world!");
}

#[test]
fn preview_test_streaming_preview_basic() {
    let mut preview =
        StreamingFilePreview::new(String::new(), String::new(), 0, Compression::Uncompressed)
            .unwrap();
    let mut file: Vec<u8> = Vec::new();

    file.extend(written(preview.append_chunk(b"line1\nline2\nline3\n", 0)));

    assert_eq!(preview.line_count(), 4);
    assert_eq!(preview.bytes_written(), 18);

    let lines: Vec<String> = preview.read_lines(&file, 0, 3).into_iter().map(text).collect();
    assert_eq!(lines, vec!["line1", "line2", "line3"]);
}

#[test]
fn preview_test_streaming_preview_chunked() {
    let mut preview =
        StreamingFilePreview::new(String::new(), String::new(), 0, Compression::Uncompressed)
            .unwrap();
    let mut file: Vec<u8> = Vec::new();

    file.extend(written(preview.append_chunk(b"hel", 0)));
    file.extend(written(preview.append_chunk(b"lo\nwor", 3)));
    file.extend(written(preview.append_chunk(b"ld\n", 9)));

    assert_eq!(preview.line_count(), 3);

    let lines: Vec<String> = preview.read_lines(&file, 0, 2).into_iter().map(text).collect();
    assert_eq!(lines, vec!["hello", "world"]);
}

#[test]
fn streaming_preview_test_streaming_preview_basic() {
    let data = b"line1\nline2\nline3\n";
    let mut preview = StreamingFilePreview::new(
        "bucket".to_string(),
        "key".to_string(),
        data.len(),
        Compression::Uncompressed,
    )
    .unwrap();
    let mut file: Vec<u8> = Vec::new();
    file.extend(written(preview.append_chunk(data, 0)));

    assert_eq!(preview.line_count(), 4);
    assert_eq!(text(preview.get_line(&file, 0)), "line1");
    assert_eq!(text(preview.get_line(&file, 1)), "line2");
    assert_eq!(text(preview.get_line(&file, 2)), "line3");
    assert!(preview.is_complete());
}

#[test]
fn streaming_preview_test_streaming_preview_chunked() {
    let total = b"hello\nworld\n";
    let mut preview = StreamingFilePreview::new(
        "bucket".to_string(),
        "key".to_string(),
        total.len(),
        Compression::Uncompressed,
    )
    .unwrap();
    let mut file: Vec<u8> = Vec::new();
    file.extend(written(preview.append_chunk(&total[..6], 0)));

    assert_eq!(preview.line_count(), 2);
    assert_eq!(text(preview.get_line(&file, 0)), "hello");
    assert!(!preview.is_complete());

    file.extend(written(preview.append_chunk(&total[6..], 6)));
    assert_eq!(preview.line_count(), 3);
    assert_eq!(text(preview.get_line(&file, 1)), "world");
    assert!(preview.is_complete());
}

#[test]
fn streaming_gzip_preview_in_chunks_of_five() {
    let payload = b"a\nbb\nccc\n";
    let compressed = gzip(payload);
    let mut preview = StreamingFilePreview::new(
        "bucket".to_string(),
        "file.txt.gz".to_string(),
        compressed.len(),
        Compression::Gzip,
    )
    .unwrap();
    let mut file: Vec<u8> = Vec::new();
    let mut offset = 0;
    for chunk in compressed.chunks(5) {
        assert!(!preview.is_complete());
        file.extend(written(preview.append_chunk(chunk, offset)));
        offset += chunk.len();
    }
    assert_eq!(preview.source_bytes(), compressed.len());
    assert!(preview.is_complete());
    assert_eq!(preview.status(), StreamingStatus::Complete);
    assert_eq!(preview.bytes_written(), 9);
    assert_eq!(preview.line_offsets(), vec![0, 2, 5, 9]);
    assert_eq!(text(preview.get_line(&file, 0)), "a");
    assert_eq!(text(preview.get_line(&file, 1)), "bb");
    assert_eq!(text(preview.get_line(&file, 2)), "ccc");
    assert_eq!(file, payload);
}

#[test]
fn pass_through_transform_returns_its_input() {
    let mut transform = PassThroughTransform;
    assert_eq!(transform.transform(b"abc"), b"abc".to_vec());
    assert!(transform.flush().is_empty());
}

#[test]
fn compression_is_told_in_any_case_of_letters() {
    assert_eq!(Compression::from_filename("FILE.GZ"), Compression::Gzip);
    assert_eq!(Compression::from_filename("Data.Json.ZSTD"), Compression::Zstd);
    assert_eq!(Compression::from_filename("archive.GZIP"), Compression::Gzip);
    assert_eq!(Compression::from_filename("gz"), Compression::Uncompressed);
    assert_eq!(Compression::from_filename("notes.gz.txt"), Compression::Uncompressed);
    assert_eq!(Compression::from_filename(""), Compression::Uncompressed);
}

#[test]
fn a_chunk_out_of_order_is_rejected_and_changes_nothing() {
    let mut preview =
        StreamingFilePreview::new("b".to_string(), "k".to_string(), 100, Compression::Uncompressed)
            .unwrap();
    assert!(matches!(preview.append_chunk(b"late", 4), AppendOutcome::Rejected));
    assert_eq!(preview.source_bytes(), 0);
    assert_eq!(preview.bytes_written(), 0);
    assert_eq!(preview.line_offsets(), vec![0]);
    assert_eq!(written(preview.append_chunk(b"ab\n", 0)), b"ab\n");
    assert!(matches!(preview.append_chunk(b"ab\n", 0), AppendOutcome::Rejected));
    assert!(matches!(preview.append_chunk(b"cd", 5), AppendOutcome::Rejected));
    assert_eq!(written(preview.append_chunk(b"cd", 3)), b"cd");
    assert_eq!(preview.source_bytes(), 5);
    assert_eq!(preview.next_byte_needed(), 5);
    assert_eq!(preview.bytes_downloaded(), 5);
    assert_eq!(preview.total_source_bytes(), 100);
    assert_eq!(preview.line_offsets(), vec![0, 3]);
    assert!(!preview.is_complete());
    assert!(!preview.is_failed());
}

#[test]
fn corrupt_gzip_fails_the_preview_for_good() {
    let mut compressed = gzip(b"some text that will not come out\n");
    let middle = compressed.len() / 2;
    compressed[middle] ^= 0xff;
    compressed[middle + 1] ^= 0xff;
    let mut preview = StreamingFilePreview::new(
        "b".to_string(),
        "k.gz".to_string(),
        compressed.len(),
        Compression::Gzip,
    )
    .unwrap();
    let outcome = preview.append_chunk(&compressed, 0);
    let message = match outcome {
        AppendOutcome::Failed(message) => message,
        other => panic!("corrupt data was taken in: {:?}", other),
    };
    assert!(!message.is_empty());
    assert!(preview.is_failed());
    assert!(!preview.is_complete());
    assert_eq!(preview.status(), StreamingStatus::Error(message.clone()));
    assert_eq!(preview.bytes_written(), 0);
    assert!(matches!(preview.append_chunk(b"more", 0), AppendOutcome::Failed(m) if m == message));
    assert!(matches!(preview.finish_stream(), AppendOutcome::Failed(m) if m == message));
}

#[test]
fn a_gzip_stream_that_ends_early_is_finished_by_hand() {
    let compressed = gzip(b"x\ny");
    let mut preview = StreamingFilePreview::new(
        "b".to_string(),
        "k.gz".to_string(),
        compressed.len() + 10,
        Compression::Gzip,
    )
    .unwrap();
    let mut file = Vec::new();
    let (head, tail) = compressed.split_at(7);
    file.extend(written(preview.append_chunk(head, 0)));
    file.extend(written(preview.append_chunk(tail, 7)));
    assert!(!preview.is_complete());
    assert_eq!(preview.source_bytes(), compressed.len());
    file.extend(written(preview.finish_stream()));
    assert_eq!(preview.source_bytes(), compressed.len());
    assert_eq!(preview.bytes_written(), 3);
    assert_eq!(file, b"x\ny");
    assert_eq!(preview.line_offsets(), vec![0, 2]);
    assert!(!preview.is_complete());
    preview.set_complete();
    assert!(preview.is_complete());
    assert!(preview.is_line_complete(1));
}

#[test]
fn lines_are_read_without_their_line_end_and_only_where_mapped() {
    let content = b"one\r\n\ntwo\nlast";
    let mut preview = StreamingFilePreview::new(
        "b".to_string(),
        "k".to_string(),
        content.len() + 1,
        Compression::Uncompressed,
    )
    .unwrap();
    let file = written(preview.append_chunk(content, 0));
    assert_eq!(preview.line_offsets(), vec![0, 5, 6, 10]);
    assert_eq!(preview.line_count(), 4);
    assert_eq!(text(preview.get_line(&file, 0)), "one");
    assert_eq!(text(preview.get_line(&file, 1)), "");
    assert_eq!(text(preview.get_line(&file, 2)), "two");
    assert_eq!(text(preview.get_line(&file, 3)), "last");
    assert_eq!(text(preview.get_line(&file, 4)), "");
    assert!(preview.is_line_complete(0));
    assert!(preview.is_line_complete(2));
    assert!(!preview.is_line_complete(3));
    assert!(!preview.is_line_complete(4));

    assert_eq!(text(preview.get_line(&file[..8], 2)), "tw");
    assert_eq!(text(preview.get_line(&file[..6], 2)), "");
    assert_eq!(text(preview.get_line(&[], 0)), "");
    assert_eq!(preview.read_lines(&file, 2, 10).len(), 2);
    assert_eq!(preview.read_lines(&file, 4, 10).len(), 0);
    assert_eq!(preview.read_lines(&file, 0, 0).len(), 0);
    assert_eq!(preview.get_all_content(&file), content);
    assert_eq!(preview.get_all_content(&file[..3]), b"one");
    let mut longer = file.clone();
    longer.extend_from_slice(b"not yet accounted for");
    assert_eq!(preview.get_all_content(&longer), content);
    assert!(preview.needs_remap(0));
    assert!(preview.needs_remap(content.len() - 1));
    assert!(!preview.needs_remap(content.len()));

    assert_eq!(written(preview.append_chunk(b"\n", content.len())), b"\n");
    assert!(preview.is_complete());
    assert!(preview.is_line_complete(3));
    assert!(preview.is_line_complete(4));
}

#[test]
fn status_moves_from_prefetch_to_download() {
    let mut preview =
        StreamingFilePreview::new("b".to_string(), "k".to_string(), 10, Compression::Uncompressed)
            .unwrap();
    assert_eq!(preview.bucket(), "b");
    assert_eq!(preview.key(), "k");
    assert_eq!(preview.compression(), Compression::Uncompressed);
    assert_eq!(preview.status(), StreamingStatus::Prefetching);
    preview.set_prefetch_ready();
    assert_eq!(preview.status(), StreamingStatus::PrefetchReady);
    preview.set_prefetch_ready();
    preview.set_downloading();
    assert_eq!(preview.status(), StreamingStatus::Downloading);
    preview.set_prefetch_ready();
    assert_eq!(preview.status(), StreamingStatus::Downloading);
    preview.fail("gone".to_string());
    assert_eq!(preview.status(), StreamingStatus::Error("gone".to_string()));
    assert!(preview.is_failed());
    preview.set_complete();
    preview.set_status(StreamingStatus::Downloading);
    assert_eq!(preview.status(), StreamingStatus::Error("gone".to_string()));
    preview.set_total_source_size(20);
    assert_eq!(preview.total_source_bytes(), 20);

    let mut direct =
        StreamingFilePreview::new("b".to_string(), "k".to_string(), 10, Compression::Uncompressed)
            .unwrap();
    direct.set_downloading();
    assert_eq!(direct.status(), StreamingStatus::Downloading);
    direct.set_status(StreamingStatus::PrefetchReady);
    assert_eq!(direct.status(), StreamingStatus::PrefetchReady);
}

#[test]
fn scratch_files_are_named_by_process_and_counter() {
    assert_eq!(s6ui::preview::scratch_file_name(4242, 0), "preview-4242-0");
    assert_eq!(
        s6ui::preview::scratch_file_name(u32::MAX, u64::MAX),
        "preview-4294967295-18446744073709551615"
    );
}

#[test]
fn a_size_of_zero_counts_as_unknown() {
    let mut preview =
        StreamingFilePreview::new("b".to_string(), "k".to_string(), 0, Compression::Uncompressed)
            .unwrap();
    assert_eq!(preview.total_source_size(), None);
    assert_eq!(preview.total_source_bytes(), 0);
    preview.set_total_source_size(7);
    assert_eq!(preview.total_source_size(), Some(7));
    assert_eq!(preview.total_source_bytes(), 7);
}

fn appended_in_chunks(content: &[u8], sizes: &[usize]) -> (StreamingFilePreview, Vec<u8>) {
    let mut preview = StreamingFilePreview::new(
        "b".to_string(),
        "k".to_string(),
        content.len(),
        Compression::Uncompressed,
    )
    .unwrap();
    let mut file = Vec::new();
    let mut offset = 0;
    for size in sizes {
        file.extend(written(preview.append_chunk(&content[offset..offset + size], offset)));
        offset += size;
    }
    assert_eq!(offset, content.len());
    (preview, file)
}

fn all_lines(preview: &StreamingFilePreview, file: &[u8]) -> Vec<Vec<u8>> {
    preview.read_lines(file, 0, preview.line_count())
}

#[test]
fn lines_joined_with_newlines_are_the_bytes_again() {
    for content in [
        &b"alpha\nbeta\n\ngamma"[..],
        &b"alpha\nbeta\n"[..],
        &b"\n"[..],
        &b"\n\n"[..],
        &b"no newline at all"[..],
        &b"tab\tand \xff bytes\nthat are no text\n"[..],
    ] {
        let (preview, file) = appended_in_chunks(content, &[content.len()]);
        let lines = all_lines(&preview, &file);
        assert_eq!(lines.join(&b"\n"[..]), content);
        assert_eq!(lines.last().unwrap().is_empty(), content.ends_with(b"\n"));
        assert!(preview.is_complete());
    }
}

#[test]
fn the_line_index_is_strictly_increasing_and_within_the_content() {
    let content = b"\n\na\nbc\n\n\nlast";
    let (preview, _) = appended_in_chunks(content, &[1, 1, 3, 2, 4, 2]);
    let offsets = preview.line_offsets();
    assert_eq!(offsets, vec![0, 1, 2, 4, 7, 8, 9]);
    assert!(offsets.windows(2).all(|w| w[0] < w[1]));
    assert!(offsets.iter().all(|o| *o <= preview.bytes_written()));
}

#[test]
fn any_chunking_gives_what_one_append_gives() {
    let content = b"first line\nsecond\n\nfourth line without end";
    let (whole, whole_file) = appended_in_chunks(content, &[content.len()]);
    let n = content.len();
    let partitions: Vec<Vec<usize>> = vec![
        vec![1; n],
        vec![n - 1, 1],
        vec![1, n - 1],
        vec![10, 1, 7, n - 18],
        vec![11, n - 11],
        vec![0, 5, 0, n - 5, 0],
    ];
    for sizes in partitions {
        let (chunked, file) = appended_in_chunks(content, &sizes);
        assert_eq!(chunked.bytes_written(), whole.bytes_written());
        assert_eq!(chunked.source_bytes(), whole.source_bytes());
        assert_eq!(chunked.line_offsets(), whole.line_offsets());
        assert_eq!(all_lines(&chunked, &file), all_lines(&whole, &whole_file));
        assert_eq!(file, whole_file);
        assert_eq!(chunked.status(), whole.status());
    }
}

#[test]
fn gzip_comes_out_whole_however_the_stream_is_cut() {
    let payload: Vec<u8> = (0..2000u32).flat_map(|i| format!("line {}\n", i % 37).into_bytes()).collect();
    let compressed = gzip(&payload);
    for size in [1, 2, 3, 7, 10, 64, compressed.len() - 1, compressed.len()] {
        let mut transform = GzipTransform::new();
        let mut output = Vec::new();
        for chunk in compressed.chunks(size) {
            transform.process(chunk, &mut output).unwrap();
        }
        transform.finish(&mut output).unwrap();
        assert_eq!(output, payload, "chunks of {}", size);
        assert!(!transform.has_error());
    }
}

#[test]
fn a_step_of_the_decoder_appends_what_it_wrote_and_moves_on() {
    let room = [10u8, 11, 12, 13];
    let mut output = vec![1u8, 2];
    assert_eq!(s6ui::preview::take_run(&mut output, &room, 3, 9, Ok((4, 3))), Ok(7));
    assert_eq!(output, vec![1, 2, 10, 11, 12]);
    assert_eq!(s6ui::preview::take_run(&mut output, &room, 7, 9, Ok((0, 0))), Ok(7));
    assert_eq!(output, vec![1, 2, 10, 11, 12]);
    assert_eq!(s6ui::preview::take_run(&mut output, &room, 7, 9, Ok((2, 4))), Ok(9));
    assert_eq!(output, vec![1, 2, 10, 11, 12, 10, 11, 12, 13]);
    assert_eq!(
        s6ui::preview::take_run(&mut output, &room, 0, 9, Err("broken".to_string())),
        Err("broken".to_string())
    );
    assert_eq!(output.len(), 9);
}

#[test]
fn a_run_that_ends_before_the_input_does_made_no_progress() {
    assert_eq!(s6ui::preview::run_verdict(5, 5), Ok(()));
    assert_eq!(s6ui::preview::run_verdict(0, 0), Ok(()));
    assert_eq!(
        s6ui::preview::run_verdict(4, 5),
        Err("zstd decompress error: decoder made no progress".to_string())
    );
}

#[test]
fn a_flush_appends_what_was_written_and_tells_whether_more_is_due() {
    let room = [7u8, 8, 9];
    let mut output = Vec::new();
    assert_eq!(s6ui::preview::take_flush(&mut output, &room, Ok((1, 3))), Ok(true));
    assert_eq!(output, vec![7, 8, 9]);
    assert_eq!(s6ui::preview::take_flush(&mut output, &room, Ok((0, 1))), Ok(false));
    assert_eq!(output, vec![7, 8, 9, 7]);
    assert_eq!(s6ui::preview::take_flush(&mut output, &room, Ok((0, 0))), Ok(false));
    assert_eq!(
        s6ui::preview::take_flush(&mut output, &room, Err("zstd finish error: x".to_string())),
        Err("zstd finish error: x".to_string())
    );
    assert_eq!(output, vec![7, 8, 9, 7]);
}
