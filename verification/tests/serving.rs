use rustw::server::building::{BuildResult, BuildUpdateHandler, ParsedError};
use rustw::server::edit::{edit_command_line, handle_edit};
use rustw::server::event::{close_event_text, event_text};
use rustw::server::reply::{answer, Status};
use rustw::server::route::{route, route_path, route_url, Action, UrlPath};
use rustw::server::{Config, Instance, Pull};

fn texts(parts: &[&str]) -> Vec<String> {
    parts.iter().map(|p| p.to_string()).collect()
}

fn config() -> Config {
    Config {
        demo_mode: false,
        unstable_features: true,
        save_analysis: true,
        edit_command: "edit $file:$line:$col".to_string(),
    }
}

fn instance() -> Instance<&'static str> {
    Instance::new(config(), "/project".to_string())
}

fn name(action: Option<Action>) -> String {
    match action {
        None => "none".to_string(),
        Some(Action::Index) => "index".to_string(),
        Some(Action::Config) => "config".to_string(),
        Some(Action::Pull(q)) => format!("pull {:?}", q),
        Some(Action::Source(p)) => format!("source {:?}", p),
        Some(Action::Find(q)) => format!("find {:?}", q),
        Some(Action::Test) => "test".to_string(),
        Some(Action::Build) => "build".to_string(),
        Some(Action::BuildUpdates) => "updates".to_string(),
        Some(Action::Edit(q)) => format!("edit {:?}", q),
        Some(Action::Search(q)) => format!("search {:?}", q),
        Some(Action::PlainText(q)) => format!("text {:?}", q),
        Some(Action::Static(p)) => format!("static {:?}", p),
    }
}

#[test]
fn requests_are_routed() {
    for (uri, expected) in [
        ("/", "index"),
        ("/index.html", "index"),
        ("/data/config", "config"),
        ("/data/pull?key=7", "pull Some(\"key=7\")"),
        ("/data/src/src/main.rs", "source [\"src\", \"main.rs\"]"),
        ("/data/src//home/a.rs", "source [\"\", \"home\", \"a.rs\"]"),
        ("/data/src/a/../b", "source [\"b\"]"),
        ("/data/src/a%20b c", "source [\"a%20b%20c\"]"),
        ("/data/find?impls=7", "find Some(\"impls=7\")"),
        ("/data/build", "build"),
        ("/data/search?needle=a&x=%20#frag", "search Some(\"needle=a&x=%20\")"),
        ("/plain_text?file=a.rs&line=4", "text Some(\"file=a.rs&line=4\")"),
        ("/plain_text", "text None"),
        ("/static/css/a.css", "static [\"css\", \"a.css\"]"),
        ("/static", "static []"),
        ("\\data\\config", "config"),
    ] {
        assert_eq!(name(route(uri, false)), expected);
    }
}

#[test]
fn current_directory_is_a_source_path() {
    for uri in ["/data/src/.", "/data/src/"] {
        assert_eq!(name(route(uri, false)), "source [\".\"]");
    }
    assert_eq!(name(route("/data/src/a/", false)), "source [\"a\", \"\"]");
    assert_eq!(name(route("/data/src", false)), "source []");
}

#[test]
fn other_requests_go_to_the_client() {
    for uri in ["/src/a.rs", "/data/other", "/index.html/x", "/build", "/search?needle=a", "/x"] {
        assert_eq!(name(route(uri, false)), "index");
    }
}

#[test]
fn demo_mode_builds_nothing() {
    assert_eq!(name(route("/data/build", true)), "test");
    assert_eq!(name(route("/data/build_updates", true)), "index");
    assert_eq!(name(route("/data/search?id=1", true)), "search Some(\"id=1\")");
}

#[test]
fn updates_and_editor_are_not_routed() {
    for uri in ["/data/build_updates", "/data/edit?file=a", "/build_updates", "/edit?file=a"] {
        assert_eq!(name(route(uri, false)), "index");
    }
}

#[test]
fn some_requests_have_no_answer() {
    assert_eq!(name(route("data/config", false)), "none");
    assert_eq!(name(route("", false)), "none");
    assert_eq!(name(route("/data", false)), "none");
    assert_eq!(name(route("/data?x=1", true)), "none");
    assert_eq!(name(route_url(None, false)), "none");
}

#[test]
fn parts_are_routed() {
    assert_eq!(name(Some(route_path(&texts(&[]), None, false))), "index");
    assert_eq!(name(Some(route_path(&texts(&[""]), None, false))), "index");
    assert_eq!(name(Some(route_path(&texts(&["", ""]), None, false))), "index");
    let url = UrlPath {
        path: texts(&["data", "find"]),
        query: Some("impls=1".to_string()),
    };
    assert_eq!(name(route_url(Some(url), false)), "find Some(\"impls=1\")");
}

#[test]
fn errors_are_failures_of_the_server() {
    assert_eq!(answer(Ok(7)).unwrap(), 7);
    let failure = answer::<u8>(Err("why".to_string())).unwrap_err();
    assert_eq!(failure.status, Status::InternalServerError);
    assert_eq!(failure.msg, "why");
}

#[test]
fn editor_gets_the_parts_of_a_location() {
    assert_eq!(
        edit_command_line("ed -l $line $file:$line:$col", "a.rs:3:7:4"),
        Some(texts(&["ed", "-l", "3", "a.rs:3:7"]))
    );
    assert_eq!(edit_command_line("ed $file +$line", "a b.rs"), Some(texts(&["ed", "a", "b.rs", "+"])));
    assert_eq!(edit_command_line("", "a.rs"), None);
    assert_eq!(edit_command_line("just run", "a.rs:1"), Some(texts(&["just", "run"])));
}

#[test]
fn edit_requests() {
    let ok = handle_edit(false, true, "ed $file", &Some("file=a.rs:3".to_string())).unwrap();
    assert_eq!(ok, Some(texts(&["ed", "a.rs"])));
    let none = handle_edit(false, true, "", &Some("file=a.rs:3".to_string())).unwrap();
    assert_eq!(none, None);
    let missing = handle_edit(false, true, "ed", &None).unwrap_err();
    assert_eq!(missing.status, Status::InternalServerError);
    assert_eq!(missing.msg, "Bad query string: None");
    let bad = handle_edit(false, true, "ed", &Some("path=\"a\"".to_string())).unwrap_err();
    assert_eq!(bad.msg, "Bad query string: Some(\"path=\\\"a\\\"\")");
}

#[test]
fn pull_waits_for_data() {
    let mut instance = instance();
    let pull = |instance: &Instance<&'static str>, key: &str| {
        instance.handle_pull(&Some(format!("key={}", key)))
    };
    assert!(matches!(pull(&instance, "k"), Ok(Pull::Send(s)) if s == "{}"));
    let result = instance.make_build_result(vec!["e"], texts(&["m"]), "k".to_string());
    assert_eq!(result.errors, vec!["e"]);
    assert_eq!(result.messages, texts(&["m"]));
    assert_eq!(result.push_data_key, Some("k".to_string()));
    assert!(matches!(pull(&instance, "k"), Ok(Pull::Wait)));
    assert!(matches!(pull(&instance, "other"), Ok(Pull::Send(s)) if s == "{}"));
    instance.finish_push("k".to_string(), "[1]".to_string());
    assert!(matches!(pull(&instance, "k"), Ok(Pull::Send(s)) if s == "[1]"));
    let failure = instance.handle_pull(&None).unwrap_err();
    assert_eq!(failure.status, Status::InternalServerError);
    assert_eq!(failure.msg, "Bad query string");
}

#[test]
fn push_data_start_with_what_came_while_building() {
    let mut instance = instance();
    assert!(instance.follow_build());
    let handler = instance.build_update_handler.as_mut().unwrap();
    handler.pass_on(vec![ParsedError::Diagnostic { diagnostic: "first", json: "1".to_string() }]);
    let result = instance.make_build_result(vec!["second", "third"], texts(&[]), "k".to_string());
    let task = instance.process_push_data(result).unwrap();
    assert_eq!(task.key, "k");
    assert_eq!(task.errors, vec!["first", "second", "third"]);
    assert!(task.use_analysis);
    assert!(instance.build_update_handler.as_ref().unwrap().diagnostics.is_empty());

    let again = BuildResult { messages: vec![], errors: vec!["x"], push_data_key: Some("l".to_string()) };
    assert_eq!(instance.process_push_data(again).unwrap().errors, vec!["x"]);
    let plain = BuildResult::from_build(vec!["x"], texts(&["m"]));
    assert_eq!(plain.push_data_key, None);
    assert!(instance.process_push_data(plain).is_none());

    instance.finish_build();
    assert!(instance.build_update_handler.is_none());
    let alone = instance.make_build_result(vec!["y"], texts(&[]), "m".to_string());
    assert_eq!(instance.process_push_data(alone).unwrap().errors, vec!["y"]);
}

#[test]
fn one_client_follows_a_build() {
    let mut instance = instance();
    assert!(instance.follow_build());
    assert!(!instance.follow_build());
    instance.finish_build();
    assert!(instance.follow_build());
}

#[test]
fn build_empties_the_cache() {
    let mut instance = instance();
    instance
        .file_cache
        .cache
        .files
        .set_file(std::path::Path::new("no/such/file"), "text");
    assert!(instance.file_cache.get_lines("no/such/file", 0, 1).is_ok());
    instance.start_build();
    assert!(instance.file_cache.get_lines("no/such/file", 0, 1).is_err());
    assert_eq!(instance.config.edit_command, "edit $file:$line:$col");
}

#[test]
fn updates_are_handed_out_once_and_in_order() {
    let mut handler: BuildUpdateHandler<()> = BuildUpdateHandler::new();
    assert_eq!(handler.take_updates(), texts(&[]));
    handler.push_updates(&["a", "b"], false);
    handler.push_updates(&["c"], false);
    assert_eq!(handler.take_updates(), texts(&["a", "b", "c"]));
    assert_eq!(handler.take_updates(), texts(&[]));
    assert!(!handler.complete);
    handler.push_updates(&["d"], true);
    handler.push_updates(&[], false);
    assert!(handler.complete);
    assert_eq!(handler.take_updates(), texts(&["d"]));
    assert_eq!(handler.updates, texts(&["a", "b", "c", "d"]));
}

#[test]
fn events_tell_of_the_output() {
    let mut handler = BuildUpdateHandler::new();
    let events = handler.pass_on(vec![
        ParsedError::Message("a \"b\"\n\tc\\ \u{1}\u{8}\u{c}\r\u{7f}é".to_string()),
        ParsedError::Error,
        ParsedError::Diagnostic { diagnostic: 7, json: "{\"id\":7}".to_string() },
    ]);
    assert_eq!(
        events,
        vec![
            "event: message\ndata: \"a \\\"b\\\"\\n\\tc\\\\ \\u0001\\b\\f\\r\u{7f}é\"\n\n".to_string(),
            "event: error\ndata: {\"id\":7}\n\n".to_string(),
        ]
    );
    assert_eq!(handler.diagnostics, vec![7]);
    handler.push_updates(&[], true);
    assert_eq!(handler.pass_on(vec![]), vec!["event: close\ndata: {}\n\n".to_string()]);
    assert_eq!(handler.take_diagnostics(), vec![7]);
    assert!(handler.diagnostics.is_empty());
}

#[test]
fn pieces_of_output_add_up() {
    let message = |s: &str| ParsedError::<u8>::Message(s.to_string());
    let mut whole = BuildUpdateHandler::new();
    let mut cut = BuildUpdateHandler::new();
    let all = whole.pass_on(vec![message("a"), message("b"), message("c")]);
    let mut pieces = cut.pass_on(vec![message("a")]);
    pieces.extend(cut.pass_on(vec![message("b"), message("c")]));
    assert_eq!(all, pieces);
}

#[test]
fn message_is_one_line_of_data() {
    let mut handler: BuildUpdateHandler<u8> = BuildUpdateHandler::new();
    let text: String = (0u8..128).map(|b| b as char).collect();
    let events = handler.pass_on(vec![ParsedError::Message(text.clone())]);
    assert_eq!(events[0].matches('\n').count(), 3);
    let json = events[0].strip_prefix("event: message\ndata: ").unwrap().trim_end();
    assert_eq!(json, serde_json::to_string(&text).unwrap());
    assert_eq!(event_text("x", "y"), "event: x\ndata: y\n\n");
    assert_eq!(close_event_text(), "event: close\ndata: {}\n\n");
}
