use std::path::Path;

use rustw::file_controller::results::{add_line, FileResult, LineResult};
use rustw::file_controller::span::Span;
use rustw::file_controller::{line_at_row, line_result, shown_path, FileController};
use rustw::file_controller::analysis::Definition;
use rustw::server::reply::Status;
use rustw::server::search::{
    handle_find, handle_plain_text, handle_search, parse_find, parse_search, parse_text_request,
    text_reply, SearchRequest, TextRequest,
};

fn shout(_path: String, text: String) -> String {
    text.to_uppercase()
}

fn span(file: &str, row: u32, col_start: u32, col_end: u32) -> Span {
    Span {
        file: file.to_string(),
        row_start: row,
        row_end: row,
        col_start,
        col_end,
    }
}

fn query(s: &str) -> Option<String> {
    Some(s.to_string())
}

/// A controller for `/project`, with two files by the paths under which they are
/// shown.
fn controller() -> FileController {
    let controller = FileController::new("/project".to_string());
    controller.cache.files.set_file(Path::new("src/a.rs"), "struct A;\nimpl A {}\n");
    controller.cache.files.set_file(Path::new("src/b.txt"), "a\nb\nc\nd\ne\nf\ng\n");
    controller
}

fn places(files: &[FileResult]) -> Vec<(String, Vec<(u64, u64, u64, String)>)> {
    files
        .iter()
        .map(|f| {
            let lines = f
                .lines
                .iter()
                .map(|l| (l.line_start, l.column_start, l.column_end, l.line.clone()))
                .collect();
            (f.file_name.clone(), lines)
        })
        .collect()
}

#[test]
fn paths_are_shown_relative_to_the_project() {
    assert_eq!(shown_path("/project", "/project/src/a.rs"), "src/a.rs");
    assert_eq!(shown_path("/project", "/projects/src/a.rs"), "/projects/src/a.rs");
    assert_eq!(shown_path("/project/", "/project/src/../b.rs"), "src/../b.rs");
    assert_eq!(shown_path("/project", "/project//./src/a.rs"), "src/a.rs");
    assert_eq!(shown_path("/project", "/project"), "");
    let controller = controller();
    assert_eq!(controller.make_file_path(&span("/project/src/a.rs", 0, 0, 0)), "src/a.rs");
    assert_eq!(controller.make_file_path(&span("other/a.rs", 0, 0, 0)), "other/a.rs");
}

#[test]
fn one_line_of_what_is_shown() {
    let mut controller = controller();
    assert_eq!(
        controller.get_highlighted_line("src/a.rs", 1, &shout),
        Ok("IMPL A {}".to_string())
    );
    assert_eq!(controller.get_highlighted_line("src/a.rs", 2, &shout), Ok(String::new()));
    assert_eq!(
        controller.get_highlighted_line("/no/such/file", 0, &shout),
        Err("io::Error reading or writing path".to_string())
    );
    assert_eq!(line_at_row(&vec!["a".to_string(), "b".to_string()], 1), "b");
}

#[test]
fn line_that_is_not_there_is_not_found() {
    let mut controller = controller();
    assert_eq!(
        controller.find_highlighted_line("src/a.rs", 1, &shout),
        Ok(Some("IMPL A {}".to_string()))
    );
    assert_eq!(controller.find_highlighted_line("src/a.rs", 3, &shout), Ok(None));
    assert_eq!(
        controller.find_highlighted_line("/no/such/file", 0, &shout),
        Err("io::Error reading or writing path".to_string())
    );
    let missing = controller.make_line_result("src/a.rs", &span("src/a.rs", 3, 0, 1), &shout);
    assert!(missing.unwrap_err().starts_with("Error finding text for "));
}

#[test]
fn line_results_count_from_one() {
    let mut controller = controller();
    let line = controller
        .make_line_result("src/a.rs", &span("/project/src/a.rs", 1, 5, 6), &shout)
        .unwrap();
    assert_eq!((line.line_start, line.column_start, line.column_end), (2, 6, 7));
    assert_eq!(line.line, "IMPL A {}");
    let last = LineResult::new(&span("x", u32::MAX, 0, 0), String::new());
    assert_eq!(last.line_start, 4294967296);
}

#[test]
fn line_that_is_missing_names_its_span() {
    let msg = line_result(&span("src/x.rs", 41, 7, 9), Err("why".to_string())).unwrap_err();
    assert!(msg.starts_with("Error finding text for Span"));
    assert!(msg.contains("src/x.rs"));
    assert!(msg.contains("41"));
    assert!(!msg.contains("why"));
}

#[test]
fn results_are_grouped_by_file_and_sorted() {
    let mut controller = controller();
    let spans = vec![
        span("/project/src/b.txt", 2, 0, 1),
        span("/project/src/a.rs", 1, 5, 6),
        span("/no/such/file.rs", 0, 0, 1),
        span("/project/src/a.rs", 0, 7, 8),
        span("/project/src/b.txt", 99, 0, 1),
        span("/project/src/a.rs", 0, 0, 6),
    ];
    let files = controller.make_search_results(&spans, &shout);
    let expected = vec![
        (
            "src/a.rs".to_string(),
            vec![
                (1, 1, 7, "STRUCT A;".to_string()),
                (1, 8, 9, "STRUCT A;".to_string()),
                (2, 6, 7, "IMPL A {}".to_string()),
            ],
        ),
        ("src/b.txt".to_string(), vec![(3, 1, 2, "c".to_string())]),
    ];
    assert_eq!(places(&files), expected);

    // The order in which things are found makes no difference.
    let mut reversed: Vec<Span> = spans;
    reversed.reverse();
    assert_eq!(places(&controller.make_search_results(&reversed, &shout)), expected);
}

#[test]
fn equal_lines_are_all_shown() {
    let mut files: Vec<FileResult> = Vec::new();
    for file in ["b", "a", "b"] {
        add_line(&mut files, file.to_string(), LineResult::new(&span(file, 3, 1, 2), "x".to_string()));
    }
    let line = (4, 2, 3, "x".to_string());
    assert_eq!(
        places(&files),
        vec![
            ("a".to_string(), vec![line.clone()]),
            ("b".to_string(), vec![line.clone(), line]),
        ]
    );
}

#[test]
fn definition_comes_with_its_references() {
    let mut controller = controller();
    let spans = vec![
        span("/project/src/a.rs", 0, 7, 8),
        span("/project/src/b.txt", 0, 0, 1),
        span("/project/src/a.rs", 1, 5, 6),
    ];
    let def = controller.make_def_result(spans, &shout).unwrap();
    assert_eq!(def.file, "src/a.rs");
    assert_eq!((def.line.line_start, def.line.line.as_str()), (1, "STRUCT A;"));
    assert_eq!(
        places(&def.refs),
        vec![
            ("src/a.rs".to_string(), vec![(2, 6, 7, "IMPL A {}".to_string())]),
            ("src/b.txt".to_string(), vec![(1, 1, 2, "a".to_string())]),
        ]
    );
    let missing = controller.make_def_result(vec![span("/no/such.rs", 0, 0, 1)], &shout);
    assert!(missing.unwrap_err().starts_with("Error finding text for "));
}

#[test]
fn implementations_are_shown_or_missed() {
    let mut controller = controller();
    let found = controller
        .make_find_result(Some(vec![span("/project/src/a.rs", 1, 0, 4)]), &shout)
        .unwrap();
    assert_eq!(
        places(&found.results),
        vec![("src/a.rs".to_string(), vec![(2, 1, 5, "IMPL A {}".to_string())])]
    );
    assert_eq!(controller.make_find_result(None, &shout).unwrap_err(), "No impls found");
}

#[test]
fn searches_keep_what_is_shown() {
    let mut controller = controller();
    let before = controller.get_highlighted("src/a.rs", &shout);
    controller.make_search_results(&vec![span("/project/src/a.rs", 0, 0, 1)], &|_, t| t);
    assert_eq!(controller.get_highlighted("src/a.rs", &|_, t| t), before);
}

#[test]
fn nothing_is_known_before_the_analysis() {
    let mut controller = controller();
    assert_eq!(controller.id_search(7, &shout).unwrap_err(), "Error finding references");
    assert_eq!(controller.ids_search(&vec![], &shout).unwrap().defs.len(), 0);
    assert_eq!(controller.ident_search("A", &shout).unwrap().defs.len(), 0);
    assert_eq!(controller.find_impls(7, &shout).unwrap_err(), "No impls found");
    let names = vec!["rustw".to_string()];
    assert_eq!(controller.get_symbol_roots(Some(&names)).unwrap().len(), 0);
    assert_eq!(
        controller.get_symbol_roots(None).unwrap_err(),
        "Could not access cargo metadata"
    );
    assert_eq!(controller.get_symbol_children(7).unwrap_err(), "unknown error");
}

#[test]
fn updated_analysis_empties_the_cache() {
    let mut controller = controller();
    assert!(controller.get_lines("src/b.txt", 0, 1).is_ok());
    controller.update_analysis();
    assert!(controller.get_lines("src/b.txt", 0, 1).is_err());
}

#[test]
fn symbols_are_listed_by_id_and_place() {
    let controller = controller();
    let defs = vec![Definition {
        id: u64::MAX,
        name: "A".to_string(),
        span: span("/project/src/a.rs", 0, 7, 8),
    }];
    let symbols = controller.symbol_results(&defs);
    assert_eq!(symbols.len(), 1);
    assert_eq!(symbols[0].id, "18446744073709551615");
    assert_eq!(symbols[0].name, "A");
    assert_eq!(symbols[0].file_name, "src/a.rs");
    assert_eq!(symbols[0].line_start, 1);
}

#[test]
fn listed_id_can_be_searched_for() {
    let id = 1234567890123456789;
    match parse_search(&query(&format!("id={}", id))) {
        Ok(SearchRequest::Id(found)) => assert_eq!(found, id),
        _ => panic!("not an id"),
    }
    assert_eq!(parse_find(&query(&format!("impls={}", id))).unwrap(), id);
}

#[test]
fn search_needs_one_of_name_and_id() {
    match parse_search(&query("needle=foo")) {
        Ok(SearchRequest::Name(name)) => assert_eq!(name, "foo"),
        _ => panic!("not a name"),
    }
    for bad in [None, query(""), query("needle=a&id=1"), query("name=a")] {
        match parse_search(&bad) {
            Err(failure) => {
                assert_eq!(failure.status, Status::InternalServerError);
                assert_eq!(failure.msg, "Bad search string");
            }
            Ok(_) => panic!("no failure"),
        }
    }
    match parse_search(&query("id=0x1")) {
        Err(failure) => assert_eq!(failure.msg, "Bad id: 0x1"),
        Ok(_) => panic!("no failure"),
    }
}

#[test]
fn find_needs_an_id() {
    assert_eq!(parse_find(&query("impls=7")).unwrap(), 7);
    assert_eq!(parse_find(&query("impls=-7")).unwrap_err().msg, "Bad id: -7");
    assert_eq!(
        parse_find(&query("impls=18446744073709551616")).unwrap_err().msg,
        "Bad id: 18446744073709551616"
    );
    assert_eq!(parse_find(&query("refs=7")).unwrap_err().msg, "Unknown argument to find");
    assert_eq!(parse_find(&None).unwrap_err().msg, "Unknown argument to find");
}

#[test]
fn search_and_find_before_the_analysis() {
    let mut controller = controller();
    assert_eq!(handle_search(&mut controller, &query("needle=A"), &shout).unwrap().defs.len(), 0);
    let failure = handle_search(&mut controller, &query("id=1"), &shout).unwrap_err();
    assert_eq!(failure.status, Status::InternalServerError);
    assert_eq!(failure.msg, "Error finding references");
    assert_eq!(
        handle_search(&mut controller, &None, &shout).unwrap_err().msg,
        "Bad search string"
    );
    assert_eq!(
        handle_find(&mut controller, &query("impls=1"), &shout).unwrap_err().msg,
        "No impls found"
    );
    assert_eq!(
        handle_find(&mut controller, &query("impls="), &shout).unwrap_err().msg,
        "Bad id: "
    );
}

#[test]
fn plain_text_shows_two_lines_around() {
    let mut controller = controller();
    let result = handle_plain_text(&mut controller, &query("file=src/b.txt&line=4")).unwrap();
    assert_eq!(result.text, "b\nc\nd\ne\nf\n");
    assert_eq!(result.file_name, "src/b.txt");
    assert_eq!((result.line_start, result.line_end), (2, 6));

    let start = handle_plain_text(&mut controller, &query("line=1&file=src/b.txt")).unwrap();
    assert_eq!(start.text, "a\nb\nc\n");
    assert_eq!((start.line_start, start.line_end), (1, 3));

    let end = handle_plain_text(&mut controller, &query("file=src/b.txt&line=7")).unwrap();
    assert_eq!(end.text, "e\nf\ng\n");
    assert_eq!((end.line_start, end.line_end), (5, 9));

    let zero = handle_plain_text(&mut controller, &query("file=src/b.txt&line=0")).unwrap();
    assert_eq!(zero.text, "a\nb\n");
    assert_eq!((zero.line_start, zero.line_end), (1, 2));
}

#[test]
fn rows_are_kept_in_32_bits() {
    let mut controller = controller();
    let result =
        handle_plain_text(&mut controller, &query("file=src/b.txt&line=4294967300")).unwrap();
    assert_eq!(result.text, "b\nc\nd\ne\nf\n");
    assert_eq!((result.line_start, result.line_end), (4294967298, 4294967302));
}

#[test]
fn plain_text_failures() {
    let mut controller = controller();
    for (bad, msg) in [
        ("file=src/b.txt", "Bad query string"),
        ("line=4", "Bad query string"),
        ("file=src/b.txt&line=four", "Bad line number: four"),
        ("file=/no/such/file&line=4", "io::Error reading or writing path"),
        ("file=src/b.txt&line=99", "client specified location not existing within a file"),
    ] {
        let failure = handle_plain_text(&mut controller, &query(bad)).unwrap_err();
        assert_eq!(failure.status, Status::InternalServerError);
        assert_eq!(failure.msg, msg);
    }
    assert_eq!(parse_text_request(&query("file=a&line=4")).unwrap().line, 4);
    let request = TextRequest { file_name: "a".to_string(), line: 4 };
    assert_eq!(text_reply(request, Err("why".to_string())).unwrap_err().msg, "why");
}
