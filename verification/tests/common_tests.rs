use filen_relay::common::{str_eq, LogLine, LogLineContent, ServerId, ServerType};

#[test]
fn fresh_ids_have_the_hyphenated_uuid_shape() {
    let id = ServerId::new();
    let text = id.to_text();
    assert_eq!(text.len(), 36);
    let bytes = text.as_bytes();
    for (i, b) in bytes.iter().enumerate() {
        if i == 8 || i == 13 || i == 18 || i == 23 {
            assert_eq!(*b, b'-');
        } else {
            assert!(b.is_ascii_hexdigit() && !b.is_ascii_uppercase());
        }
    }
}

#[test]
fn short_id_is_the_prefix_before_the_first_dash() {
    let id = ServerId::from_string("ab12cd34-0000-4000-8000-000000000000".to_string());
    assert_eq!(id.short(), "ab12cd34");
    let fresh = ServerId::new();
    assert_eq!(fresh.short().len(), 8);
    let no_dash = ServerId::from_string("plain".to_string());
    assert_eq!(no_dash.short(), "plain");
}

#[test]
fn ids_compare_by_content() {
    let a = ServerId::from_string("x-1".to_string());
    let b = ServerId::from_string("x-1".to_string());
    let c = ServerId::from_string("x-2".to_string());
    assert!(a.same_as(&b));
    assert!(!a.same_as(&c));
    assert!(a.duplicate().same_as(&a));
}

#[test]
fn server_type_display_names() {
    assert_eq!(ServerType::Http.display_name(), "HTTP");
    assert_eq!(ServerType::Webdav.display_name(), "WebDAV");
    assert_eq!(ServerType::S3.display_name(), "S3");
    assert_eq!(ServerType::Ftp.display_name(), "FTP");
    assert_eq!(ServerType::Sftp.display_name(), "SFTP");
}

#[test]
fn server_type_parses_case_insensitively_with_http_fallback() {
    assert_eq!(ServerType::from_name("http"), ServerType::Http);
    assert_eq!(ServerType::from_name("WebDAV"), ServerType::Webdav);
    assert_eq!(ServerType::from_name("webdav"), ServerType::Webdav);
    assert_eq!(ServerType::from_name("S3"), ServerType::S3);
    assert_eq!(ServerType::from_name("s3"), ServerType::S3);
    assert_eq!(ServerType::from_name("FTP"), ServerType::Ftp);
    assert_eq!(ServerType::from_name("SFTP"), ServerType::Sftp);
    assert_eq!(ServerType::from_name("gopher"), ServerType::Http);
    assert_eq!(ServerType::from_name(""), ServerType::Http);
}

#[test]
fn round_trip_display_and_parse() {
    for t in ServerType::all() {
        assert_eq!(ServerType::from_name(&t.display_name()), t);
    }
}

#[test]
fn all_lists_every_type_once() {
    let all = ServerType::all();
    assert_eq!(all.len(), 5);
    assert_eq!(all[0], ServerType::Http);
    assert_eq!(all[4], ServerType::Sftp);
}

#[test]
fn string_equality_helper() {
    assert!(str_eq("abc", "abc"));
    assert!(!str_eq("abc", "abd"));
    assert!(!str_eq("abc", "ab"));
    assert!(str_eq("", ""));
}

#[test]
fn log_lines_copy_by_value() {
    let l = LogLine { timestamp_ms: 42, content: LogLineContent::Event("hello".to_string()) };
    let c = l.duplicate();
    assert_eq!(c.timestamp_ms, 42);
    match c.content {
        LogLineContent::Event(s) => assert_eq!(s, "hello"),
        _ => panic!("the copy must keep the variant"),
    }
}
