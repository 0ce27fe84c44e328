use s6ui::aws::credentials::{
    build_profiles, find_section, ini_get, needs_sso_credentials, parse_ini, parse_iso8601,
    refresh_profile, resolve_sso_session, retain_with_keys, section_value, sso_cache_key,
    token_expired, AWSProfile,
};

const CREDENTIALS: &str = "\
# keys
[default]
aws_access_key_id = AKIDEFAULT
aws_secret_access_key = secret/default
aws_session_token=tok=en

; a section without keys
[empty]
note = nothing here

[work]
aws_access_key_id=AKWORK
aws_secret_access_key=secret-work
";

const CONFIG: &str = "\
[default]
region = eu-central-1
endpoint_url = http://localhost:9000

[profile work]
sso_session = corp

[profile sso-only]
sso_session = corp
sso_account_id = 123456789012
sso_role_name = Reader
region = ap-south-1

[profile legacy]
sso_start_url = https://legacy.example/start
sso_region = us-west-2
sso_account_id = 1
sso_role_name = Admin

[sso-session corp]
sso_start_url = https://corp.example/start
sso_region = eu-west-1
";

#[test]
fn ini_sections_keep_their_order_and_the_last_value_of_a_key() {
    let sections = parse_ini(
        "stray = ignored\n  [ one ]  \r\n a = 1 \n\n#c\n;d\nb=2\na = 3\nno equals sign\n[profile two]\n=v\nk=\n[one]\nc = x = y\n",
    );
    assert_eq!(sections.len(), 2);
    assert_eq!(sections[0].name, "one");
    assert_eq!(
        sections[0].entries,
        vec![
            ("a".to_string(), "3".to_string()),
            ("b".to_string(), "2".to_string()),
            ("c".to_string(), "x = y".to_string())
        ]
    );
    assert_eq!(sections[1].name, "two");
    assert_eq!(
        sections[1].entries,
        vec![("".to_string(), "v".to_string()), ("k".to_string(), "".to_string())]
    );
    assert_eq!(find_section(&sections, "two"), Some(1));
    assert_eq!(find_section(&sections, "three"), None);
    assert_eq!(section_value(&sections[0], "b"), Some("2".to_string()));
    assert_eq!(section_value(&sections[0], "z"), None);
    assert_eq!(ini_get(&sections, "one", "a"), Some("3".to_string()));
    assert_eq!(ini_get(&sections, "two", "a"), None);
    assert_eq!(ini_get(&sections, "none", "a"), None);
    assert!(parse_ini("").is_empty());
    assert!(parse_ini("a=b\n[]\nc=d").is_empty());
}

#[test]
fn profiles_come_from_credentials_first_and_then_from_the_configuration() {
    let creds = parse_ini(CREDENTIALS);
    let config = parse_ini(CONFIG);
    let profiles = build_profiles(&creds, &config);
    let names: Vec<&str> = profiles.iter().map(|p| p.name.as_str()).collect();
    assert_eq!(names, vec!["default", "work", "sso-only", "legacy"]);

    let default = &profiles[0];
    assert_eq!(default.access_key_id, "AKIDEFAULT");
    assert_eq!(default.secret_access_key, "secret/default");
    assert_eq!(default.session_token, "tok=en");
    assert_eq!(default.region, "eu-central-1");
    assert_eq!(default.endpoint_url, "http://localhost:9000");
    assert_eq!(default.sso_start_url, "");
    assert_eq!(default.expiration, 0);
    assert!(!needs_sso_credentials(default));

    let work = &profiles[1];
    assert_eq!(work.access_key_id, "AKWORK");
    assert_eq!(work.region, "us-east-1");
    assert_eq!(work.sso_session_name, "corp");
    assert_eq!(work.sso_start_url, "https://corp.example/start");
    assert_eq!(work.sso_region, "eu-west-1");
    assert!(!needs_sso_credentials(work));

    let sso = &profiles[2];
    assert_eq!(sso.access_key_id, "");
    assert_eq!(sso.region, "ap-south-1");
    assert_eq!(sso.sso_session_name, "corp");
    assert_eq!(sso.sso_start_url, "https://corp.example/start");
    assert_eq!(sso.sso_region, "eu-west-1");
    assert_eq!(sso.sso_account_id, "123456789012");
    assert_eq!(sso.sso_role_name, "Reader");
    assert!(needs_sso_credentials(sso));

    let legacy = &profiles[3];
    assert_eq!(legacy.sso_session_name, "");
    assert_eq!(legacy.sso_start_url, "https://legacy.example/start");
    assert_eq!(legacy.sso_region, "us-west-2");
    assert_eq!(legacy.region, "us-east-1");

    let usable = retain_with_keys(profiles);
    let names: Vec<&str> = usable.iter().map(|p| p.name.as_str()).collect();
    assert_eq!(names, vec!["default", "work"]);
    assert!(build_profiles(&Vec::new(), &Vec::new()).is_empty());
}

#[test]
fn an_sso_session_fills_only_a_profile_without_a_start_url() {
    let config = parse_ini(CONFIG);
    let mut named = AWSProfile::default();
    named.name = "work".to_string();
    resolve_sso_session(&mut named, &config);
    assert_eq!(named.sso_session_name, "corp");
    assert_eq!(named.sso_start_url, "https://corp.example/start");
    assert_eq!(named.sso_region, "eu-west-1");

    let mut own = AWSProfile::default();
    own.name = "work".to_string();
    own.sso_start_url = "https://own.example".to_string();
    resolve_sso_session(&mut own, &config);
    assert_eq!(own.sso_session_name, "");
    assert_eq!(own.sso_start_url, "https://own.example");
    assert_eq!(own.sso_region, "");

    let dangling = parse_ini("[profile p]\nsso_session = gone\n");
    let mut p = AWSProfile::default();
    p.name = "p".to_string();
    resolve_sso_session(&mut p, &dangling);
    assert_eq!(p.sso_session_name, "");
    assert_eq!(p.sso_start_url, "");
}

#[test]
fn refreshing_a_profile_reads_its_sections_again() {
    let creds = parse_ini("[work]\naws_access_key_id=NEW\naws_secret_access_key=newer\n");
    let config = parse_ini("[profile work]\nsso_start_url = https://s.example\n");
    let mut p = AWSProfile::default();
    p.name = "work".to_string();
    p.access_key_id = "OLD".to_string();
    p.secret_access_key = "older".to_string();
    p.session_token = "stale".to_string();
    p.region = "eu-north-1".to_string();
    p.endpoint_url = "http://old".to_string();
    p.expiration = 77;
    assert!(refresh_profile(&mut p, &creds, &config));
    assert_eq!(p.access_key_id, "NEW");
    assert_eq!(p.secret_access_key, "newer");
    assert_eq!(p.session_token, "");
    assert_eq!(p.region, "eu-north-1");
    assert_eq!(p.endpoint_url, "");
    assert_eq!(p.sso_start_url, "https://s.example");
    assert_eq!(p.expiration, 77);

    let mut unknown = AWSProfile::default();
    unknown.name = "nobody".to_string();
    assert!(!refresh_profile(&mut unknown, &creds, &config));
    assert_eq!(unknown.region, "us-east-1");
    assert_eq!(unknown.access_key_id, "");

    let mut sso = AWSProfile::default();
    sso.name = "work".to_string();
    assert!(refresh_profile(&mut sso, &Vec::new(), &config));
    assert!(needs_sso_credentials(&sso));
}

#[test]
fn timestamps_are_read_as_utc_seconds() {
    assert_eq!(parse_iso8601("1970-01-01T00:00:00Z"), 0);
    assert_eq!(parse_iso8601("1970-01-02T00:00:01Z"), 86401);
    assert_eq!(parse_iso8601("2024-01-15T12:34:56Z"), 1705322096);
    assert_eq!(parse_iso8601("2024-01-15T12:34:56"), 1705322096);
    assert_eq!(parse_iso8601("2024-01-15T12:34:56z"), 1705322096);
    assert_eq!(parse_iso8601("2000-02-29T23:59:59Z"), 951868799);
    assert_eq!(parse_iso8601("2000-03-01T00:00:00Z"), 951868800);
    assert_eq!(parse_iso8601("2100-03-01T00:00:00Z"), 4107542400);
    assert_eq!(parse_iso8601(""), 0);
    assert_eq!(parse_iso8601("2024-01-15"), 0);
    assert_eq!(parse_iso8601("2024-01-15 12:34:56Z"), 0);
    assert_eq!(parse_iso8601("2024/01/15T12:34:56Z"), 0);
    assert_eq!(parse_iso8601("2024-01-15T12-34-56Z"), 0);
}

#[test]
fn the_cache_key_is_the_sha1_of_the_session_name_or_the_start_url() {
    assert_eq!(
        sso_cache_key("abc", ""),
        Some("a9993e364706816aba3e25717850c26c9cd0d89d".to_string())
    );
    assert_eq!(
        sso_cache_key("https://ignored.example", "abc"),
        Some("a9993e364706816aba3e25717850c26c9cd0d89d".to_string())
    );
    assert_eq!(
        sso_cache_key("", ""),
        Some("da39a3ee5e6b4b0d3255bfef95601890afd80709".to_string())
    );
}

#[test]
fn a_token_expires_at_its_expiration_and_never_without_one() {
    assert!(!token_expired(0, 1_000));
    assert!(!token_expired(-5, 1_000));
    assert!(!token_expired(1_000, 999));
    assert!(token_expired(1_000, 1_000));
    assert!(token_expired(1_000, i64::MAX));
    assert!(!token_expired(i64::MAX, i64::MIN));
}
