use s6ui::events::{S3Bucket, S3Object, StateEvent};
use s6ui::format::{build_s3_path, format_number, format_size};

#[test]
fn numbers_get_a_comma_before_each_group_of_three() {
    assert_eq!(format_number(0), "0");
    assert_eq!(format_number(7), "7");
    assert_eq!(format_number(999), "999");
    assert_eq!(format_number(1000), "1,000");
    assert_eq!(format_number(12345), "12,345");
    assert_eq!(format_number(123456), "123,456");
    assert_eq!(format_number(1234567), "1,234,567");
    assert_eq!(format_number(i64::MAX), "9,223,372,036,854,775,807");
    assert_eq!(format_number(-12), "-12");
    assert_eq!(format_number(-1234), "-1,234");
    assert_eq!(format_number(-123), "-123");
    assert_eq!(format_number(-1), "-1");
    assert_eq!(format_number(-999999), "-999,999");
    assert_eq!(format_number(-1000000), "-1,000,000");
    assert_eq!(format_number(i64::MIN), "-9,223,372,036,854,775,808");
}

#[test]
fn sizes_are_rounded_down_to_the_largest_binary_unit() {
    assert_eq!(format_size(0), "0 B");
    assert_eq!(format_size(1023), "1,023 B");
    assert_eq!(format_size(1024), "1 KB");
    assert_eq!(format_size(1536), "1 KB");
    assert_eq!(format_size(1024 * 1024 - 1), "1,023 KB");
    assert_eq!(format_size(1024 * 1024), "1 MB");
    assert_eq!(format_size(1024 * 1024 * 1024 - 1), "1,023 MB");
    assert_eq!(format_size(1024 * 1024 * 1024), "1 GB");
    assert_eq!(format_size(5 * 1024 * 1024 * 1024 * 1024), "5,120 GB");
    assert_eq!(format_size(-1), "-1 B");
}

#[test]
fn locations_are_written_as_s3_urls() {
    assert_eq!(build_s3_path("", ""), "s3://");
    assert_eq!(build_s3_path("", "ignored/"), "s3://");
    assert_eq!(build_s3_path("b", ""), "s3://b/");
    assert_eq!(build_s3_path("b", "a/c/"), "s3://b/a/c/");
}

fn object(key: &str) -> S3Object {
    S3Object {
        key: key.to_string(),
        display_name: key.to_string(),
        size: 1,
        last_modified: String::new(),
        is_folder: false,
    }
}

#[test]
fn events_describe_themselves_in_one_line() {
    let bucket = S3Bucket { name: "b".to_string(), creation_date: String::new() };
    assert_eq!(
        StateEvent::BucketsLoaded { buckets: vec![bucket.clone(), bucket] }.describe(),
        "BucketsLoaded(count=2)"
    );
    assert_eq!(
        StateEvent::BucketsLoadError { error_message: "no".to_string() }.describe(),
        "BucketsLoadError(no)"
    );
    assert_eq!(
        StateEvent::ObjectsLoaded {
            bucket: "b".to_string(),
            prefix: "p/".to_string(),
            continuation_token: "t".to_string(),
            objects: vec![object("p/a")],
            next_continuation_token: "n".to_string(),
            is_truncated: true,
        }
        .describe(),
        "ObjectsLoaded(bucket=b, prefix=p/, count=1, truncated=true)"
    );
    assert_eq!(
        StateEvent::ObjectsLoadError {
            bucket: "b".to_string(),
            prefix: "".to_string(),
            error_message: "AccessDenied: no".to_string(),
        }
        .describe(),
        "ObjectsLoadError(bucket=b, prefix=, AccessDenied: no)"
    );
    assert_eq!(
        StateEvent::ObjectContentLoaded {
            bucket: "b".to_string(),
            key: "k".to_string(),
            content: vec![0; 12],
        }
        .describe(),
        "ObjectContentLoaded(bucket=b, key=k, size=12)"
    );
    assert_eq!(
        StateEvent::ObjectContentLoadError {
            bucket: "b".to_string(),
            key: "k".to_string(),
            error_message: "HTTP 500".to_string(),
        }
        .describe(),
        "ObjectContentLoadError(bucket=b, key=k, HTTP 500)"
    );
    assert_eq!(
        StateEvent::ObjectRangeLoaded {
            bucket: "b".to_string(),
            key: "k".to_string(),
            start_byte: 65536,
            total_size: 100000,
            data: vec![1, 2, 3],
        }
        .describe(),
        "ObjectRangeLoaded(bucket=b, key=k, offset=65536, size=3, total=100000)"
    );
    assert_eq!(
        StateEvent::ObjectRangeLoadError {
            bucket: "b".to_string(),
            key: "k".to_string(),
            start_byte: 0,
            error_message: "ERROR: reset".to_string(),
        }
        .describe(),
        "ObjectRangeLoadError(bucket=b, key=k, offset=0, ERROR: reset)"
    );
}
