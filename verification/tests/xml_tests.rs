use s6ui::aws::s3_backend::{
    build_host_path, build_list_query, extract_region_from_endpoint, parse_content_range_total,
    parse_endpoint_host, parse_list_buckets_xml, parse_list_objects_xml,
};
use s6ui::aws::credentials::AWSProfile;
use s6ui::aws::xml::{extract_all_tags, extract_error, extract_tag};

#[test]
fn tag_content_is_what_stands_between_the_first_pair() {
    assert_eq!(extract_tag("<a>1</a><a>2</a>", "a"), Some("1".to_string()));
    assert_eq!(extract_tag("x<b></b>", "b"), Some(String::new()));
    assert_eq!(extract_tag("<a>1", "a"), None);
    assert_eq!(extract_tag("1</a>", "a"), None);
    assert_eq!(extract_tag("</a><a>", "a"), None);
    assert_eq!(extract_tag("<Name>é</Name>", "Name"), Some("é".to_string()));
}

#[test]
fn all_tags_are_found_in_order() {
    assert_eq!(extract_all_tags("<k>a</k>-<k>b</k><k>c", "k"), vec!["a", "b"]);
    assert!(extract_all_tags("no tags", "k").is_empty());
}

#[test]
fn error_is_code_and_message() {
    assert_eq!(
        extract_error("<Error><Code>NoSuchKey</Code><Message>gone</Message></Error>"),
        Some("NoSuchKey: gone".to_string())
    );
    assert_eq!(extract_error("<Code>AccessDenied</Code>"), Some("AccessDenied: ".to_string()));
    assert_eq!(extract_error("<Message>only</Message>"), None);
}

#[test]
fn buckets_are_parsed_with_name_and_creation_date() {
    let xml = "<ListAllMyBucketsResult><Buckets>\
               <Bucket><Name>one</Name><CreationDate>2024-01-01T00:00:00Z</CreationDate></Bucket>\
               <Bucket><CreationDate>x</CreationDate></Bucket>\
               <Bucket><Name>two</Name></Bucket>\
               </Buckets></ListAllMyBucketsResult>";
    let buckets = parse_list_buckets_xml(xml);
    assert_eq!(buckets.len(), 2);
    assert_eq!(buckets[0].name, "one");
    assert_eq!(buckets[0].creation_date, "2024-01-01T00:00:00Z");
    assert_eq!(buckets[1].name, "two");
    assert_eq!(buckets[1].creation_date, "");
}

#[test]
fn listing_with_a_sub_folder_and_a_file() {
    let xml = "<ListBucketResult><IsTruncated>false</IsTruncated><CommonPrefixes><Prefix>logs/</Prefix></CommonPrefixes><Contents><Key>readme.txt</Key><Size>12</Size><LastModified>2024-01-01T00:00:00Z</LastModified></Contents></ListBucketResult>";
    let result = parse_list_objects_xml(xml);
    assert_eq!(result.error, "");
    assert!(!result.is_truncated);
    assert_eq!(result.next_continuation_token, "");
    assert_eq!(result.objects.len(), 2);
    assert_eq!(result.objects[0].key, "logs/");
    assert_eq!(result.objects[0].display_name, "logs");
    assert_eq!(result.objects[0].size, 0);
    assert!(result.objects[0].is_folder);
    assert_eq!(result.objects[1].key, "readme.txt");
    assert_eq!(result.objects[1].display_name, "readme.txt");
    assert_eq!(result.objects[1].size, 12);
    assert_eq!(result.objects[1].last_modified, "2024-01-01T00:00:00Z");
    assert!(!result.objects[1].is_folder);
}

#[test]
fn listing_carries_truncation_and_skips_folder_markers() {
    let xml = "<IsTruncated>true</IsTruncated><NextContinuationToken>tok</NextContinuationToken>\
               <Contents><Key>a/b/</Key><Size>0</Size></Contents>\
               <Contents><Key>a/b/c.txt</Key><Size>-7</Size></Contents>\
               <Contents><Key>a/d</Key><Size>nine</Size></Contents>\
               <Contents><Key>a/e</Key><Size>9223372036854775808</Size></Contents>\
               <CommonPrefixes><Prefix>a/b/x/</Prefix></CommonPrefixes>\
               <CommonPrefixes></CommonPrefixes>";
    let result = parse_list_objects_xml(xml);
    assert!(result.is_truncated);
    assert_eq!(result.next_continuation_token, "tok");
    let keys: Vec<&str> = result.objects.iter().map(|o| o.key.as_str()).collect();
    assert_eq!(keys, vec!["a/b/x/", "a/b/c.txt", "a/d", "a/e"]);
    assert_eq!(result.objects[0].display_name, "x");
    assert_eq!(result.objects[1].display_name, "c.txt");
    assert_eq!(result.objects[1].size, -7);
    assert_eq!(result.objects[2].size, 0);
    assert_eq!(result.objects[3].size, 0);
}

#[test]
fn listing_with_an_error_has_no_objects() {
    let xml = "<Error><Code>AccessDenied</Code><Message>no</Message></Error>\
               <Contents><Key>k</Key></Contents>";
    let result = parse_list_objects_xml(xml);
    assert_eq!(result.error, "AccessDenied: no");
    assert!(result.objects.is_empty());
}

#[test]
fn endpoint_host_loses_scheme_slashes_and_path() {
    assert_eq!(parse_endpoint_host("https://minio.local:9000/"), "minio.local:9000");
    assert_eq!(parse_endpoint_host("http://host/path/more"), "host");
    assert_eq!(parse_endpoint_host("host///"), "host");
    assert_eq!(parse_endpoint_host(""), "");
}

#[test]
fn region_is_read_from_an_endpoint() {
    assert_eq!(extract_region_from_endpoint("x.s3.eu-west-1.amazonaws.com"), "eu-west-1");
    assert_eq!(extract_region_from_endpoint("x.s3-us-west-2.amazonaws.com"), "us-west-2");
    assert_eq!(extract_region_from_endpoint("s3.ap-south-1.amazonaws.com"), "ap-south-1");
    assert_eq!(extract_region_from_endpoint("s3.amazonaws.com"), "");
    assert_eq!(extract_region_from_endpoint("x.s3.amazonaws.com"), "");
    assert_eq!(extract_region_from_endpoint("example.com"), "");
    assert_eq!(extract_region_from_endpoint("as3.s3.eu-west-1.amazonaws.com"), "eu-west-1");
    assert_eq!(extract_region_from_endpoint("my.s3.bucket.s3.eu-west-1.amazonaws.com"), "eu-west-1");
    assert_eq!(extract_region_from_endpoint("logs-s3.s3-eu-west-1.amazonaws.com"), "eu-west-1");
    assert_eq!(extract_region_from_endpoint("s3-bucket.s3.ap-south-1.amazonaws.com"), "ap-south-1");
    assert_eq!(extract_region_from_endpoint("s3-us-west-2.amazonaws.com"), "us-west-2");
    assert_eq!(extract_region_from_endpoint("as3.s3-eu-west-1.amazonaws.com"), "eu-west-1");
    assert_eq!(extract_region_from_endpoint("b.s3.as3-x.amazonaws.com"), "as3-x");
    assert_eq!(extract_region_from_endpoint("b.s3.as3-eu-1.amazonaws.com"), "as3-eu-1");
    assert_eq!(extract_region_from_endpoint("b.s3.s3-x.amazonaws.com"), "s3-x");
    assert_eq!(extract_region_from_endpoint("b.s3-as3-x.amazonaws.com"), "as3-x");
    assert_eq!(extract_region_from_endpoint("b.s3-s3-x.amazonaws.com"), "s3-x");
    assert_eq!(extract_region_from_endpoint("x.s3.s3-eu-west-1.amazonaws.com"), "s3-eu-west-1");
    assert_eq!(extract_region_from_endpoint("s3.s3-eu-west-1.amazonaws.com"), "s3-eu-west-1");
    assert_eq!(extract_region_from_endpoint("as3.eu-west-1.amazonaws.com"), "eu-west-1");
    assert_eq!(extract_region_from_endpoint("xs3-eu-west-1.amazonaws.com"), "eu-west-1");
    assert_eq!(extract_region_from_endpoint("b.s3.dualstack.eu-west-1.amazonaws.com"), "");
    assert_eq!(extract_region_from_endpoint("x.s3.useast.amazonaws.com"), "");
    assert_eq!(extract_region_from_endpoint("x.s3-useast.amazonaws.com"), "");
    assert_eq!(extract_region_from_endpoint("x.s3.eu-west-1.example.com"), "");
    assert_eq!(extract_region_from_endpoint("x.s3.eu-west-1.amazonaws.com.cn"), "");
    assert_eq!(extract_region_from_endpoint("x.eu-west-1.amazonaws.com"), "");
    assert_eq!(extract_region_from_endpoint("x.s3..amazonaws.com"), "");
    assert_eq!(extract_region_from_endpoint(".amazonaws.com"), "");
    assert_eq!(extract_region_from_endpoint(""), "");
}

#[test]
fn host_and_path_follow_the_endpoint_style() {
    let mut profile = AWSProfile::default();
    assert_eq!(
        build_host_path(&profile, "eu-west-1", "b", "k/x"),
        ("b.s3.eu-west-1.amazonaws.com".to_string(), "/k/x".to_string())
    );
    assert_eq!(
        build_host_path(&profile, "eu-west-1", "b", ""),
        ("b.s3.eu-west-1.amazonaws.com".to_string(), "/".to_string())
    );
    profile.endpoint_url = "http://minio:9000/".to_string();
    assert_eq!(
        build_host_path(&profile, "eu-west-1", "b", "k/x"),
        ("minio:9000".to_string(), "/b/k/x".to_string())
    );
    assert_eq!(
        build_host_path(&profile, "eu-west-1", "b", ""),
        ("minio:9000".to_string(), "/b".to_string())
    );
}

#[test]
fn list_query_has_a_fixed_key_order() {
    assert_eq!(build_list_query("", ""), "list-type=2&delimiter=%2F&max-keys=1000");
    assert_eq!(
        build_list_query("a b/", "t+1"),
        "list-type=2&delimiter=%2F&max-keys=1000&prefix=a%20b%2F&continuation-token=t%2B1"
    );
}

#[test]
fn total_size_is_read_from_content_range() {
    assert_eq!(parse_content_range_total("bytes 0-1023/12345"), 12345);
    assert_eq!(parse_content_range_total("bytes 0-1023/ 77 "), 77);
    assert_eq!(parse_content_range_total("bytes 0-1023/*"), 0);
    assert_eq!(parse_content_range_total("bytes 0-1023"), 0);
    assert_eq!(parse_content_range_total("bytes 0-1/99999999999999999999999"), 0);
}
