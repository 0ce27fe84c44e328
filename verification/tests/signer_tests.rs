use s6ui::aws::signer::{
    aws_generate_presigned_url, aws_generate_presigned_url_at, aws_sign_request,
    aws_sign_request_at, civil_from_unix, get_timestamp, sort_query_string, to_hex, uri_encode,
    url_encode,
};

const ACCESS_KEY: &str = "SECRET-REDACTED";
const SECRET_KEY: &str = "wJalrXUtnFEMI/K7MDENG/bPxRfiCYEXAMPLEKEY";
const EMPTY_SHA256: &str = "e3b0c44298fc1c149afbf4c8996fb92427ae41e4649b934ca495991b7852b855";

fn header<'a>(headers: &'a [(String, String)], name: &str) -> Option<&'a str> {
    headers.iter().find(|(n, _)| n == name).map(|(_, v)| v.as_str())
}

#[test]
fn hex_of_bytes_is_lowercase_two_digits_each() {
    assert_eq!(to_hex(&[]), "");
    assert_eq!(to_hex(&[0x00, 0x0f, 0xa0, 0xff]), "000fa0ff");
}

#[test]
fn uri_encoding_keeps_unreserved_and_encodes_the_rest_in_uppercase() {
    assert_eq!(uri_encode("abc-XYZ_0.9~", true), "abc-XYZ_0.9~");
    assert_eq!(uri_encode("a/b c", false), "a/b%20c");
    assert_eq!(uri_encode("a/b c", true), "a%2Fb%20c");
    assert_eq!(url_encode("/"), "%2F");
    assert_eq!(url_encode("é"), "%C3%A9");
    assert_eq!(url_encode("a+b=c&d"), "a%2Bb%3Dc%26d");
}

#[test]
fn query_tokens_are_sorted_whole_and_kept_as_given() {
    assert_eq!(sort_query_string(""), "");
    assert_eq!(sort_query_string("b=2&a=1"), "a=1&b=2");
    assert_eq!(sort_query_string("a=2&a=1&a"), "a&a=1&a=2");
    assert_eq!(sort_query_string("prefix=J&max-keys=2"), "max-keys=2&prefix=J");
    assert_eq!(sort_query_string("x=&y"), "x=&y");
    assert_eq!(sort_query_string("a="), "a=");
    assert_eq!(sort_query_string("k=a=b"), "k=a=b");
    assert_eq!(sort_query_string("a-b=2&a=1"), "a-b=2&a=1");
    assert_eq!(sort_query_string("a=1&a-b=2"), "a-b=2&a=1");
    assert_eq!(sort_query_string("a=%2F&a=%20&A=z"), "A=z&a=%20&a=%2F");
    assert_eq!(sort_query_string("b&&a"), "&a&b");
    assert_eq!(sort_query_string("same&same"), "same&same");
}

#[test]
fn civil_time_of_known_instants() {
    assert_eq!(civil_from_unix(0).timestamp(), "19700101T000000Z");
    assert_eq!(civil_from_unix(1369353600).timestamp(), "20130524T000000Z");
    assert_eq!(civil_from_unix(1700000000).timestamp(), "20231114T221320Z");
    assert_eq!(civil_from_unix(1709164800).timestamp(), "20240229T000000Z");
    assert_eq!(civil_from_unix(951782399).timestamp(), "20000228T235959Z");
    assert_eq!(civil_from_unix(951868800).timestamp(), "20000301T000000Z");
    let t = civil_from_unix(4102444799);
    assert_eq!((t.year, t.month, t.day, t.hour, t.minute, t.second), (2099, 12, 31, 23, 59, 59));
}

#[test]
fn signature_of_the_documented_list_request() {
    let time = civil_from_unix(1369353600);
    let signed = aws_sign_request_at(
        &time,
        "GET",
        "examplebucket.s3.amazonaws.com",
        "/",
        "prefix=J&max-keys=2",
        "us-east-1",
        "s3",
        ACCESS_KEY,
        SECRET_KEY,
        b"",
        "",
    )
    .unwrap();
    assert_eq!(signed.url, "https://examplebucket.s3.amazonaws.com/?max-keys=2&prefix=J");
    assert_eq!(
        header(&signed.headers, "Authorization"),
        Some(
            "AWS4-HMAC-SHA256 Credential=SECRET-REDACTED/20130524/us-east-1/s3/aws4_request, \
             SignedHeaders=host;x-amz-content-sha256;x-amz-date, \
             Signature=34b48302e7b5fa45bde8084f4b7868a86f0a534bc59db6670ed5711ef69dc6f7"
        )
    );
    assert_eq!(header(&signed.headers, "Host"), Some("examplebucket.s3.amazonaws.com"));
    assert_eq!(header(&signed.headers, "x-amz-date"), Some("20130524T000000Z"));
    assert_eq!(header(&signed.headers, "x-amz-content-sha256"), Some(EMPTY_SHA256));
    assert_eq!(header(&signed.headers, "x-amz-security-token"), None);
    let names: Vec<&str> = signed.headers.iter().map(|(n, _)| n.as_str()).collect();
    assert_eq!(names, vec!["Authorization", "Host", "x-amz-content-sha256", "x-amz-date"]);
}

#[test]
fn signing_is_deterministic_for_a_fixed_time() {
    let time = civil_from_unix(1700000000);
    let sign = || {
        aws_sign_request_at(
            &time,
            "GET",
            "b.s3.eu-west-1.amazonaws.com",
            "/a key/with spaces",
            "list-type=2&delimiter=%2F",
            "eu-west-1",
            "s3",
            ACCESS_KEY,
            SECRET_KEY,
            b"payload",
            "token",
        )
        .unwrap()
    };
    let first = sign();
    let second = sign();
    assert_eq!(first.url, second.url);
    assert_eq!(first.headers, second.headers);
    assert_eq!(
        first.url,
        "https://b.s3.eu-west-1.amazonaws.com/a%20key/with%20spaces?delimiter=%2F&list-type=2"
    );
    assert_eq!(header(&first.headers, "x-amz-security-token"), Some("token"));
    assert!(header(&first.headers, "Authorization")
        .unwrap()
        .contains("SignedHeaders=host;x-amz-content-sha256;x-amz-date;x-amz-security-token,"));
}

#[test]
fn empty_path_is_signed_as_the_root() {
    let time = civil_from_unix(1700000000);
    let signed = aws_sign_request_at(
        &time, "GET", "h", "", "", "r", "s3", ACCESS_KEY, SECRET_KEY, b"", "",
    )
    .unwrap();
    assert_eq!(signed.url, "https://h/");
}

#[test]
fn different_secrets_give_different_signatures() {
    let time = civil_from_unix(1700000000);
    let sign = |secret: &str| {
        let signed = aws_sign_request_at(
            &time, "GET", "h", "/", "", "r", "s3", ACCESS_KEY, secret, b"", "",
        )
        .unwrap();
        header(&signed.headers, "Authorization").unwrap().to_string()
    };
    assert_ne!(sign("one"), sign("two"));
}

#[test]
fn signing_with_the_clock_gives_a_timestamped_request() {
    let signed =
        aws_sign_request("GET", "h", "/", "", "r", "s3", ACCESS_KEY, SECRET_KEY, b"", "").unwrap();
    let date = header(&signed.headers, "x-amz-date").unwrap();
    assert_eq!(date.len(), 16);
    assert!(date.ends_with('Z'));
    assert_eq!(get_timestamp().len(), 16);
}

#[test]
fn presigned_url_of_the_documented_download() {
    let time = civil_from_unix(1369353600);
    let url = aws_generate_presigned_url_at(
        &time,
        "examplebucket",
        "test.txt",
        "us-east-1",
        ACCESS_KEY,
        SECRET_KEY,
        "",
        86400,
    )
    .unwrap();
    assert!(url.starts_with(
        "https://examplebucket.s3.us-east-1.amazonaws.com/test.txt?\
         X-Amz-Algorithm=AWS4-HMAC-SHA256\
         &X-Amz-Credential=SECRET-REDACTED%2F20130524%2Fus-east-1%2Fs3%2Faws4_request\
         &X-Amz-Date=20130524T000000Z&X-Amz-Expires=86400&X-Amz-SignedHeaders=host\
         &X-Amz-Signature="
    ));
    let signature = url.rsplit('=').next().unwrap();
    assert_eq!(signature.len(), 64);
    assert!(signature.chars().all(|c| c.is_ascii_hexdigit() && !c.is_ascii_uppercase()));
    let again = aws_generate_presigned_url_at(
        &time,
        "examplebucket",
        "test.txt",
        "us-east-1",
        ACCESS_KEY,
        SECRET_KEY,
        "",
        86400,
    )
    .unwrap();
    assert_eq!(url, again);
}

#[test]
fn presigned_url_carries_the_session_token_and_a_negative_lifetime() {
    let time = civil_from_unix(1369353600);
    let url = aws_generate_presigned_url_at(
        &time, "b", "dir/a b", "r", ACCESS_KEY, SECRET_KEY, "t/k", -5,
    )
    .unwrap();
    assert!(url.starts_with("https://b.s3.r.amazonaws.com/dir/a%20b?"));
    assert!(url.contains("&X-Amz-Expires=-5&X-Amz-Security-Token=t%2Fk&X-Amz-SignedHeaders=host&"));
    assert!(aws_generate_presigned_url("b", "k", "r", ACCESS_KEY, SECRET_KEY, "", 60).is_some());
}

#[test]
fn signatures_and_payload_hashes_are_64_lowercase_hexadecimal_digits() {
    let time = civil_from_unix(1_700_000_000);
    let request = aws_sign_request_at(
        &time,
        "GET",
        "b.s3.eu-west-1.amazonaws.com",
        "/k",
        "x=&a-b=2&a=1",
        "eu-west-1",
        "s3",
        "AKIDEXAMPLE",
        "secret",
        b"payload",
        "",
    )
    .unwrap();
    assert_eq!(request.url, "https://b.s3.eu-west-1.amazonaws.com/k?a-b=2&a=1&x=");
    let authorization = header(&request.headers, "Authorization").unwrap();
    let signature = authorization.rsplit("Signature=").next().unwrap();
    let hash = header(&request.headers, "x-amz-content-sha256").unwrap();
    for digest in [signature, hash] {
        assert_eq!(digest.len(), 64);
        assert!(digest.chars().all(|c| c.is_ascii_digit() || ('a'..='f').contains(&c)));
    }
    assert_eq!(hash, "239f59ed55e737c77147cf55ad0c1b030b6d7ee748a7426952f9b852d5a935e5");
}
