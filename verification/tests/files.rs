use std::path::Path;

use rustw::file_controller::file_cache::{marked_lines_of, plain_lines_of, rust_lines_of, Cache};
use rustw::file_controller::vfs::lines_fit_in;
use rustw::file_controller::FileController;
use rustw::server::files::{
    content_type_of, handle_index, handle_src, handle_static, index_page, source_path,
    source_reply, static_page, static_path, SourceResult,
};
use rustw::server::reply::{ContentType, Status};

const NOT_TEXT: &str =
    "file is not the correct kind for the operation (e.g., text op on binary file)";
const NO_SUCH_LOCATION: &str = "client specified location not existing within a file";
const UNREADABLE: &str = "io::Error reading or writing path";

fn texts(parts: &[&str]) -> Vec<String> {
    parts.iter().map(|p| p.to_string()).collect()
}

fn shout(_path: String, text: String) -> String {
    text.to_uppercase()
}

fn whisper(_path: String, text: String) -> String {
    text.to_lowercase()
}

fn nothing(_path: String, _text: String) -> String {
    String::new()
}

fn cache_with(path: &str, text: &str) -> Cache {
    let cache = Cache::new();
    cache.files.set_file(Path::new(path), text);
    cache
}

fn controller_with(path: &str, text: &str) -> FileController {
    let controller = FileController::new("/project".to_string());
    controller.cache.files.set_file(Path::new(path), text);
    controller
}

#[test]
fn lines_are_read_by_row() {
    let mut cache = cache_with("a.txt", "zero\none\ntwo\n");
    assert_eq!(cache.get_lines("a.txt", 0, 1), Ok("zero\n".to_string()));
    assert_eq!(cache.get_lines("a.txt", 1, 3), Ok("one\ntwo\n".to_string()));
    assert_eq!(cache.get_lines("a.txt", 2, 2), Ok(String::new()));
    assert_eq!(cache.get_lines("a.txt", 1, 99), Ok("one\ntwo\n".to_string()));
    assert_eq!(cache.get_lines("a.txt", 3, 4), Ok(String::new()));
    assert_eq!(cache.get_lines("a.txt", 4, 9), Ok(String::new()));
    assert_eq!(cache.get_lines("a.txt", 5, 9), Err(NO_SUCH_LOCATION.to_string()));
}

#[test]
fn lines_of_short_text_fit() {
    assert!(lines_fit_in("zero\none\n", 0, 1));
    assert!(lines_fit_in("zero\none\n", 7, u32::MAX));
}

#[test]
fn rows_in_reverse_are_no_location() {
    let mut cache = cache_with("a.txt", "zero\none\ntwo\n");
    assert_eq!(cache.get_lines("a.txt", 2, 1), Err(NO_SUCH_LOCATION.to_string()));
}

#[test]
fn all_lines_are_the_text() {
    let text = "zero\nöne\n\nthree";
    let mut cache = cache_with("a.txt", text);
    assert_eq!(cache.get_lines("a.txt", 0, 4), Ok(text.to_string()));
    let front = cache.get_lines("a.txt", 0, 2).unwrap();
    let back = cache.get_lines("a.txt", 2, 4).unwrap();
    assert_eq!(front + &back, text);
}

#[test]
fn held_file_is_read_the_same() {
    let mut cache = cache_with("a.txt", "zero\none\n");
    let first = cache.get_lines("a.txt", 1, 2);
    let second = cache.get_lines("./a.txt/", 1, 2);
    assert_eq!(first, cache.get_lines("a.txt", 1, 2));
    // Only the components of a path count, and a leading dot is one of them.
    assert_eq!(second, Err(UNREADABLE.to_string()));
    assert_eq!(first, cache.get_lines("a.txt//.", 1, 2));
}

#[test]
fn missing_file_cannot_be_read() {
    let mut cache = Cache::new();
    assert_eq!(cache.get_lines("/no/such/file", 0, 1), Err(UNREADABLE.to_string()));
    assert_eq!(cache.get_text("/no/such/file"), Err(UNREADABLE.to_string()));
    assert_eq!(cache.get_bytes("/no/such/file"), Err(UNREADABLE.to_string()));
    assert_eq!(cache.get_highlighted("/no/such/file", &shout), Err(UNREADABLE.to_string()));
}

#[test]
fn program_is_not_text() {
    let program = "/proc/self/exe";
    let mut cache = Cache::new();
    assert_eq!(cache.get_text(program), Err(NOT_TEXT.to_string()));
    assert_eq!(cache.get_lines(program, 0, 1), Err(NOT_TEXT.to_string()));
    assert_eq!(cache.get_highlighted(program, &shout), Err(NOT_TEXT.to_string()));
    let bytes = cache.get_bytes(program).unwrap();
    assert_eq!(bytes[..4], [0x7f, b'E', b'L', b'F']);
}

#[test]
fn text_and_bytes_of_a_file() {
    let mut cache = cache_with("a.txt", "é\n");
    assert_eq!(cache.get_text("a.txt"), Ok("é\n".to_string()));
    assert_eq!(cache.get_bytes("a.txt"), Ok("é\n".as_bytes().to_vec()));
}

#[test]
fn cleared_cache_forgets() {
    let mut cache = cache_with("no/such/file.txt", "text");
    assert_eq!(cache.get_text("no/such/file.txt"), Ok("text".to_string()));
    cache.clear();
    assert_eq!(cache.get_text("no/such/file.txt"), Err(UNREADABLE.to_string()));
}

#[test]
fn plain_files_are_not_highlighted() {
    let mut cache = cache_with("a.txt", "one\ntwo\n");
    assert_eq!(cache.get_highlighted("a.txt", &shout), Ok(texts(&["one", "two", ""])));
    assert_eq!(plain_lines_of("one\ntwo"), texts(&["one", "two"]));
    assert_eq!(plain_lines_of(""), texts(&[]));
}

#[test]
fn plain_lines_are_the_text() {
    for text in ["", "a", "a\n", "\n\n", "a\nb\n\nc"] {
        assert_eq!(plain_lines_of(text).join("\n"), text);
    }
}

#[test]
fn rust_files_are_highlighted() {
    let mut cache = cache_with("a.rs", "fn main() {}\n");
    assert_eq!(cache.get_highlighted("a.rs", &shout), Ok(texts(&["FN MAIN() {}", ""])));
    assert_eq!(marked_lines_of("x", "a<br>b\nc"), texts(&["a\nb", "c"]));
}

#[test]
fn failed_highlighting_leaves_plain_lines() {
    let mut cache = cache_with("a.rs", "fn main() {}");
    assert_eq!(cache.get_highlighted("a.rs", &nothing), Ok(texts(&["fn main() {}"])));
    assert_eq!(rust_lines_of("x", ""), texts(&["x"]));
    assert_eq!(rust_lines_of("a\nb\n", ""), texts(&["a", "b", ""]));
    let mut ended = cache_with("m.rs", "a\nb\n");
    assert_eq!(ended.get_highlighted("m.rs", &nothing), Ok(texts(&["a", "b", ""])));
    assert_eq!(rust_lines_of("a\n", "\n"), texts(&["", ""]));
}

#[test]
fn shown_lines_are_kept() {
    let mut cache = cache_with("a.rs", "Fn");
    assert_eq!(cache.get_highlighted("a.rs", &shout), Ok(texts(&["FN"])));
    assert_eq!(cache.get_highlighted("a.rs", &whisper), Ok(texts(&["FN"])));
    cache.clear();
    cache.files.set_file(Path::new("a.rs"), "Fn");
    assert_eq!(cache.get_highlighted("a.rs", &whisper), Ok(texts(&["fn"])));
}

#[test]
fn empty_file_is_shown_anew() {
    let mut cache = cache_with("a.rs", "");
    assert_eq!(cache.get_highlighted("a.rs", &nothing), Ok(texts(&[])));
    assert_eq!(cache.get_highlighted("a.rs", &|_, _| "x".to_string()), Ok(texts(&["x"])));
}

#[test]
fn showing_one_file_leaves_others() {
    let mut cache = cache_with("a.rs", "a");
    cache.files.set_file(Path::new("b.rs"), "b");
    assert_eq!(cache.get_highlighted("a.rs", &shout), Ok(texts(&["A"])));
    assert_eq!(cache.get_highlighted("b.rs", &whisper), Ok(texts(&["b"])));
    assert_eq!(cache.get_text("b.rs"), Ok("b".to_string()));
    assert_eq!(cache.get_highlighted("a.rs", &whisper), Ok(texts(&["A"])));
}

#[test]
fn static_files_lie_beside_the_program() {
    assert_eq!(static_path("/usr/bin/rustw"), Some("/usr/bin/static".to_string()));
    assert_eq!(static_path("rustw"), Some("static".to_string()));
    assert_eq!(static_path("/"), None);
    assert_eq!(static_path(""), None);
}

#[test]
fn content_types_go_by_extension() {
    assert_eq!(content_type_of("a/index.html"), ContentType::Html);
    assert_eq!(content_type_of("a/style.css"), ContentType::Css);
    assert_eq!(content_type_of("a/data.json"), ContentType::Json);
    assert_eq!(content_type_of("a/app.js"), ContentType::OctetStream);
    assert_eq!(content_type_of("a/html"), ContentType::OctetStream);
}

#[test]
fn index_is_html() {
    let mut controller = controller_with("/site/index.html", "<p>");
    let page = handle_index(&mut controller, "/site").unwrap();
    assert_eq!(page.content_type, ContentType::Html);
    assert_eq!(page.body, b"<p>");
    let failure = handle_index(&mut controller, "/no/such/site").unwrap_err();
    assert_eq!(failure.status, Status::InternalServerError);
    assert_eq!(failure.msg, UNREADABLE);
    assert_eq!(index_page(Err("why".to_string())).unwrap_err().msg, "why");
}

#[test]
fn static_file_or_not_found() {
    let mut controller = controller_with("/site/css/a.css", "p {}");
    let page = handle_static(&mut controller, "/site", &texts(&["css", "a.css"])).unwrap();
    assert_eq!(page.content_type, ContentType::Css);
    assert_eq!(page.body, b"p {}");
    let failure = handle_static(&mut controller, "/site", &texts(&["none.css"])).unwrap_err();
    assert_eq!(failure.status, Status::NotFound);
    assert_eq!(failure.msg, "Page not found by the rust server");
    assert!(static_page("a", Err("why".to_string())).is_err());
}

#[test]
fn source_paths_are_made_of_parts() {
    assert_eq!(source_path(&texts(&["src", "a.rs"])).unwrap(), "src/a.rs");
    assert_eq!(source_path(&texts(&["", "home", "a.rs"])).unwrap(), "/home/a.rs");
    assert_eq!(source_path(&texts(&["."])).unwrap(), ".");
    assert_eq!(source_path(&texts(&["src", ""])).unwrap(), "src/");
    assert_eq!(source_path(&texts(&[""])).unwrap(), "/");
}

#[test]
fn paths_that_lead_out_are_refused() {
    for bad in [&["src", ".."][..], &["a..b"], &["/"], &["src", "/"], &["", "...", "x"]] {
        let failure = source_path(&texts(bad)).unwrap_err();
        assert_eq!(failure.status, Status::InternalServerError);
        assert_eq!(failure.msg, "Bad path, found `..`");
    }
    assert!(!source_path(&texts(&["a.", ".b"])).unwrap().contains(".."));
}

#[test]
fn source_file_is_shown_with_its_components() {
    let mut controller = controller_with("/project/./src//a.rs", "fn f() {}");
    match handle_src::<(), _>(&mut controller, &texts(&["", "project", "src", "a.rs"]), None, &shout) {
        Ok(SourceResult::Source { path, lines }) => {
            assert_eq!(path, texts(&["/", "project", "src", "a.rs"]));
            assert_eq!(lines, texts(&["FN F() {}"]));
        }
        _ => panic!("no source"),
    }
    match source_reply::<()>("a.rs", Err("why".to_string())) {
        Err(failure) => assert_eq!(failure.msg, "why"),
        Ok(_) => panic!("no failure"),
    }
}

#[test]
fn directory_is_listed() {
    let mut controller = controller_with("x", "");
    match handle_src(&mut controller, &texts(&["src"]), Some(Ok(7)), &shout) {
        Ok(SourceResult::Directory(listing)) => assert_eq!(listing, 7),
        _ => panic!("no directory"),
    }
    match handle_src::<u8, _>(&mut controller, &texts(&["src"]), Some(Err("why".to_string())), &shout) {
        Err(failure) => {
            assert_eq!(failure.status, Status::InternalServerError);
            assert_eq!(failure.msg, "why");
        }
        Ok(_) => panic!("no failure"),
    }
    match handle_src::<u8, _>(&mut controller, &texts(&["", "no", "such", "file"]), None, &shout) {
        Err(failure) => assert_eq!(failure.msg, UNREADABLE),
        Ok(_) => panic!("no failure"),
    }
    match handle_src(&mut controller, &texts(&["src", ".."]), Some(Ok(7)), &shout) {
        Err(failure) => assert_eq!(failure.msg, "Bad path, found `..`"),
        Ok(_) => panic!("no failure"),
    }
}
