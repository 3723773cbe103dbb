use rustw::number::{parse_u64, parse_usize, u64_text};
use rustw::path::{components_of, extension_of, join_parts, join_path};
use rustw::server::query::{parse_location_string, parse_query_value};
use rustw::text::{
    ends_with_newline, lines_of, replace_text, split_text, text_bytes, text_holds, text_in_order,
};

fn texts(parts: &[&str]) -> Vec<String> {
    parts.iter().map(|p| p.to_string()).collect()
}

#[test]
fn splits_at_each_separator() {
    assert_eq!(split_text("a:b::c", ':'), texts(&["a", "b", "", "c"]));
    assert_eq!(split_text("", ':'), texts(&[""]));
    assert_eq!(split_text(":", ':'), texts(&["", ""]));
    let pieces = split_text("über:größe:", ':');
    assert_eq!(pieces.join(":"), "über:größe:");
}

#[test]
fn lines_lose_their_endings() {
    assert_eq!(lines_of("one\ntwo\r\n\nfour"), texts(&["one", "two", "", "four"]));
    assert_eq!(lines_of("one\n"), texts(&["one"]));
    assert_eq!(lines_of("one\r"), texts(&["one\r"]));
    assert_eq!(lines_of(""), texts(&[]));
    for s in ["", "a", "a\n", "\n", "\r\n", "a\r\n\r", "\n\n", "x\ny\r\nz"] {
        assert_eq!(lines_of(s), s.lines().map(|l| l.to_string()).collect::<Vec<_>>());
    }
    assert!(ends_with_newline("a\n"));
    assert!(!ends_with_newline("a"));
    assert!(!ends_with_newline(""));
}

#[test]
fn final_newline_adds_no_line() {
    assert_eq!(lines_of("a\nb"), lines_of("a\nb\n"));
}

#[test]
fn replaces_from_left_to_right() {
    assert_eq!(replace_text("a<br>b<br><br>", "<br>", "\n"), "a\nb\n\n");
    assert_eq!(replace_text("aaa", "aa", "b"), "ba");
    assert_eq!(replace_text("abc", "x", "y"), "abc");
    assert_eq!(replace_text("$file $file", "$file", "$file"), "$file $file");
}

#[test]
fn holds_and_order_and_bytes() {
    assert!(text_holds("a..b", ".."));
    assert!(!text_holds("a.b.", ".."));
    assert!(text_holds("anything", ""));
    assert!(text_in_order("", "a"));
    assert!(text_in_order("a", "a"));
    assert!(text_in_order("Z", "a"));
    assert!(!text_in_order("b", "a"));
    assert!(text_in_order("a", "ab"));
    assert_eq!(text_bytes("aé€"), "aé€".as_bytes().to_vec());
}

#[test]
fn numbers_round_trip() {
    for n in [0, 7, 10, 4294967296, u64::MAX] {
        assert_eq!(u64_text(n), n.to_string());
        assert_eq!(parse_u64(&u64_text(n)), Some(n));
    }
    for s in ["", "+", "-1", "1a", " 1", "18446744073709551616", "+42", "007", "+0", "++1"] {
        assert_eq!(parse_u64(s), s.parse::<u64>().ok());
        assert_eq!(parse_usize(s), s.parse::<usize>().ok());
    }
}

#[test]
fn paths_are_joined() {
    assert_eq!(join_path("a", "b"), "a/b");
    assert_eq!(join_path("a/", "b"), "a/b");
    assert_eq!(join_path("", "b"), "b");
    assert_eq!(join_path("a", "/b"), "/b");
    assert_eq!(join_path("a", ""), "a/");
    for (a, b) in [("a", "b"), ("a/", "b"), ("", "b"), ("a", "/b"), ("a", ""), ("", ""), ("/", "x")] {
        let mut p = std::path::PathBuf::from(a);
        p.push(b);
        assert_eq!(join_path(a, b), p.to_str().unwrap());
    }
    assert_eq!(join_parts("s", &texts(&["x", "y", "z"]), 1), "s/y/z");
    assert_eq!(join_parts("s", &texts(&[]), 0), "s");
}

#[test]
fn components_stand_between_slashes() {
    for path in [
        "", "/", "a", "/a", "a/b", "a//b/", "./a", "././a", ".", "a/./b", "/./a", "../a", "a/..", "//a",
        ".//", "a/.", "...", "/.", "/..", "é/ö", "./.",
    ] {
        let expected: Vec<String> = std::path::Path::new(path)
            .components()
            .map(|c| c.as_os_str().to_str().unwrap().to_string())
            .collect();
        assert_eq!(components_of(path), expected);
    }
}

#[test]
fn extensions_follow_the_last_dot() {
    for path in ["a.rs", "dir.d/a", ".rs", "a.tar.gz", "a.", "..", "", "/", "x/..", "x/a.css/", "..rs", "a/./b.js"] {
        let expected = std::path::Path::new(path)
            .extension()
            .map(|e| e.to_str().unwrap().to_string());
        assert_eq!(extension_of(path), expected);
    }
}

#[test]
fn locations_have_five_parts() {
    assert_eq!(parse_location_string("src/a.rs:3:7"), ["src/a.rs", "3", "7", "", ""]);
    assert_eq!(parse_location_string(""), ["", "", "", "", ""]);
    assert_eq!(parse_location_string("a:b:c:d:e:f:g"), ["a", "b", "c", "d", "e"]);
}

#[test]
fn query_values_end_at_ampersand() {
    let query = Some("needle=foo&file=a.rs:1&line=".to_string());
    assert_eq!(parse_query_value(&query, "needle="), Some("foo".to_string()));
    assert_eq!(parse_query_value(&query, "file="), Some("a.rs:1".to_string()));
    assert_eq!(parse_query_value(&query, "line="), Some(String::new()));
    assert_eq!(parse_query_value(&query, "id="), None);
    assert_eq!(parse_query_value(&None, "id="), None);
    // The key is looked for anywhere, also inside of another key.
    assert_eq!(parse_query_value(&Some("grid=4&id=5".to_string()), "id="), Some("4".to_string()));
}

#[test]
fn query_value_is_read_back() {
    let query = Some(format!("{}{}{}{}", "x=1&", "key=", "välue", "&y=2"));
    assert_eq!(parse_query_value(&query, "key="), Some("välue".to_string()));
}
