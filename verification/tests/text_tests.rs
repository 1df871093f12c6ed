use iguazu::config::{parse_bool, parse_char_byte, parse_optional, parse_optional_byte};
use iguazu::csv_options::CsvImporter;
use iguazu::rel_path::{RelativePath, UrlParts};

#[test]
fn test_validate() {
    assert!(RelativePath::try_from("foo.txt".to_owned()).is_ok());
    assert!(RelativePath::try_from("a/b".to_owned()).is_ok());

    assert!(RelativePath::try_from("../path".to_owned()).is_err());
    assert!(RelativePath::try_from("invalid/../path".to_owned()).is_err());
    assert!(RelativePath::try_from("/etc/passwd".to_owned()).is_err());
    assert!(RelativePath::try_from("C:\\foo".to_owned()).is_err());
}

fn url(scheme: &str, host: Option<&str>, path: &str) -> UrlParts {
    UrlParts {
        cannot_be_a_base: false,
        scheme: scheme.to_owned(),
        host: host.map(|h| h.to_owned()),
        port: None,
        path: path.to_owned(),
    }
}

#[test]
fn relative_path_from_parts() {
    // file:///tmp/foo.json and file:///tmp/bar.f32
    assert_eq!(
        &*RelativePath::from_base(&url("file", None, "/tmp/foo.json"), &url("file", None, "/tmp/bar.f32")).unwrap(),
        "bar.f32"
    );

    // https://example.com/base/ and https://example.com/base/relative/path
    assert_eq!(
        &*RelativePath::from_base(
            &url("https", Some("example.com"), "/base/"),
            &url("https", Some("example.com"), "/base/relative/path")
        )
        .unwrap(),
        "relative/path"
    );

    // file:///tmp/foo.json and file:///etc/passwd
    assert!(RelativePath::from_base(&url("file", None, "/tmp/foo.json"), &url("file", None, "/etc/passwd")).is_none());
}

#[test]
fn relative_path_needs_same_server() {
    assert!(RelativePath::from_base(
        &url("https", Some("example.com"), "/base/"),
        &url("https", Some("example.org"), "/base/x")
    )
    .is_none());
    assert!(RelativePath::from_base(&url("http", None, "/a/"), &url("https", None, "/a/x")).is_none());
    let mut opaque = url("mailto", None, "someone@example.com");
    opaque.cannot_be_a_base = true;
    assert!(RelativePath::from_base(&opaque, &url("mailto", None, "x")).is_none());
}

#[test]
fn relative_path_rejects_bad_components() {
    assert!(RelativePath::try_from(String::new()).is_err());
    assert!(RelativePath::try_from("a//b".to_owned()).is_err());
    assert!(RelativePath::try_from("a/".to_owned()).is_err());
    assert!(RelativePath::try_from("a\0b".to_owned()).is_err());
    assert!(RelativePath::try_from("a/..b/c".to_owned()).is_ok());
    let bad = RelativePath::try_from("x:y".to_owned()).unwrap_err();
    assert_eq!(bad.0, "x:y");
}

#[test]
fn char_byte_values() {
    assert_eq!(parse_char_byte("\\t"), Ok(b'\t'));
    assert_eq!(parse_char_byte("\\n"), Ok(b'\n'));
    assert_eq!(parse_char_byte("\\r"), Ok(b'\r'));
    assert_eq!(parse_char_byte("\\x41"), Ok(0x41));
    assert_eq!(parse_char_byte("\\xfF"), Ok(0xff));
    assert_eq!(parse_char_byte("\\x+7"), Ok(7));
    assert_eq!(parse_char_byte("\\xg0"), Err("Invalid hex byte value".to_owned()));
    assert_eq!(parse_char_byte("\\xé"), Err("Invalid hex byte value".to_owned()));
    assert_eq!(parse_char_byte(";"), Ok(b';'));
    assert_eq!(parse_char_byte("é"), Err("Invalid single-byte value".to_owned()));
    assert_eq!(parse_char_byte(""), Err("Invalid single-byte value".to_owned()));
    assert_eq!(parse_char_byte("ab"), Err("Invalid single-byte value".to_owned()));
}

#[test]
fn bool_and_optional_values() {
    for v in ["true", "yes", "y", "on", "1"] {
        assert_eq!(parse_bool(v), Ok(true));
    }
    for v in ["false", "no", "n", "off", "0"] {
        assert_eq!(parse_bool(v), Ok(false));
    }
    assert_eq!(parse_bool("maybe"), Err("Invalid boolean value".to_owned()));
    assert_eq!(parse_optional_byte("none"), Ok(None));
    assert_eq!(parse_optional_byte(""), Ok(None));
    assert_eq!(parse_optional_byte("|"), Ok(Some(b'|')));
    assert_eq!(parse_optional(parse_bool, "off"), Ok(None));
    assert_eq!(parse_optional(parse_bool, "yes"), Ok(Some(true)));
    assert_eq!(parse_optional(parse_bool, "bad"), Err("Invalid boolean value".to_owned()));
}

#[test]
fn csv_defaults_and_options() {
    let c = CsvImporter::csv();
    assert_eq!(c.delimiter(), b',');
    assert_eq!(c.quote(), Some(b'"'));
    assert!(c.double_quote());
    let t = CsvImporter::tsv();
    assert_eq!(t.delimiter(), b'\t');
    assert_eq!(t.quote(), None);
    let names: Vec<&str> = c.options().iter().map(|o| o.name).collect();
    assert_eq!(
        names,
        vec!["delimiter", "terminator", "quote", "escape", "double_quote", "comment", "skip", "columns"]
    );
}

#[test]
fn csv_set_and_get() {
    let mut c = CsvImporter::csv();
    assert_eq!(c.set("delimiter", ";"), Ok(()));
    assert_eq!(c.get("delimiter"), Some(";".to_owned()));
    assert_eq!(c.set("delimiter", "\\t"), Ok(()));
    assert_eq!(c.get("delimiter"), Some("\\t".to_owned()));
    assert_eq!(c.set("quote", "none"), Ok(()));
    assert_eq!(c.get("quote"), Some(String::new()));
    assert_eq!(c.set("comment", "\\x01"), Ok(()));
    assert_eq!(c.get("comment"), Some("\\x01".to_owned()));
    assert_eq!(c.set("double_quote", "no"), Ok(()));
    assert_eq!(c.get("double_quote"), Some("false".to_owned()));
    assert_eq!(c.set("skip", "+12"), Ok(()));
    assert_eq!(c.get("skip"), Some("12".to_owned()));
    assert_eq!(c.set("skip", "-1"), Err("Invalid integer value".to_owned()));
    assert_eq!(c.set("skip", "18446744073709551616"), Err("Invalid integer value".to_owned()));
    assert_eq!(c.get("skip"), Some("12".to_owned()));
    assert_eq!(c.set("columns", " a , b,c "), Ok(()));
    assert_eq!(c.columns().unwrap(), &["a".to_owned(), "b".to_owned(), "c".to_owned()]);
    assert_eq!(c.get("columns"), Some("a,b,c".to_owned()));
    assert_eq!(c.set("columns", "  "), Ok(()));
    assert_eq!(c.columns(), None);
    assert_eq!(c.set("colour", "red"), Err("Unknown option".to_owned()));
    assert_eq!(c.get("colour"), None);
    assert_eq!(c.set("delimiter", "ab"), Err("Invalid single-byte value".to_owned()));
    assert_eq!(c.delimiter(), b'\t');
}

#[test]
fn csv_get_then_set_is_unchanged() {
    let mut c = CsvImporter::tsv().with_escape(Some(0x7f)).with_comment(Some(b'#'));
    c.set("skip", "3").unwrap();
    c.set("columns", "t,v").unwrap();
    for opt in ["delimiter", "terminator", "quote", "escape", "double_quote", "comment", "skip", "columns"] {
        let before: Vec<Option<String>> = ["delimiter", "terminator", "quote", "escape", "double_quote", "comment", "skip", "columns"]
            .iter()
            .map(|o| c.get(o))
            .collect();
        let v = c.get(opt).unwrap();
        c.set(opt, &v).unwrap();
        let after: Vec<Option<String>> = ["delimiter", "terminator", "quote", "escape", "double_quote", "comment", "skip", "columns"]
            .iter()
            .map(|o| c.get(o))
            .collect();
        assert_eq!(before, after);
    }
    assert_eq!(c.get("escape"), Some("\\x7f".to_owned()));
}

#[test]
fn test_relative_path() {
    assert_eq!(
        &*RelativePath::from_base_text("file:///tmp/foo.json", "file:///tmp/bar.f32").unwrap(),
        "bar.f32"
    );

    assert_eq!(
        &*RelativePath::from_base_text("https://example.com/base/", "https://example.com/base/relative/path")
            .unwrap(),
        "relative/path"
    );

    assert!(RelativePath::from_base_text("file:///tmp/foo.json", "file:///etc/passwd").is_none());
}

#[test]
fn relative_path_of_texts_that_are_no_urls() {
    assert!(RelativePath::from_base_text("not a url", "file:///tmp/x").is_none());
    assert!(RelativePath::from_base_text("file:///tmp/", "also not").is_none());
    assert_eq!(
        &*RelativePath::from_base_text("https://EXAMPLE.com:443/a/b", "https://example.com/a/c/d").unwrap(),
        "c/d"
    );
}
