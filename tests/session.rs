use lsp_symbols::json::parse_json;
use lsp_symbols::requests::{hover, init_notification, init_request, symbol_request};
use lsp_symbols::results::FilterConfig;
use lsp_symbols::session::{Action, Phase, Session};

fn no_filter() -> FilterConfig {
    FilterConfig { kinds: vec![], filename: String::new(), name_pattern: String::new() }
}

fn exchange(action: Action) -> (Vec<String>, u32) {
    match action {
        Action::Exchange(frames, id) => (frames, id),
        Action::Finished => panic!("the run ended early"),
    }
}

#[test]
fn session_sends_init_then_queries() {
    let mut s = Session::new("foo", no_filter(), 5);
    let (frames, id) = exchange(s.start(7, "/p"));
    assert_eq!(frames, vec![init_request(7, "/p")]);
    assert_eq!(id, 0);
    assert_eq!(s.phase(), Phase::AwaitingInit);
    let (frames, id) = exchange(s.on_reply(&parse_json("{\"id\":0,\"result\":{}}").unwrap()));
    assert_eq!(frames, vec![init_notification(), symbol_request("foo")]);
    assert_eq!(id, 10);
    assert_eq!(s.symbol_attempts(), 1);
    assert!(matches!(s.start(7, "/p"), Action::Finished));
}

#[test]
fn end_to_end_run_yields_row() {
    let mut s = Session::new("", no_filter(), 3);
    exchange(s.start(1, "/"));
    exchange(s.on_reply(&parse_json("{\"id\":0}").unwrap()));
    let reply = parse_json(
        "{\"id\":10,\"result\":[{\"name\":\"foo\",\"kind\":12,\"location\":{\"uri\":\"file:///a.rs\",\"range\":{\"start\":{\"line\":3,\"character\":1}}}}]}",
    )
    .unwrap();
    assert!(matches!(s.on_reply(&reply), Action::Finished));
    let rows = s.rows();
    assert_eq!(rows.len(), 1);
    assert_eq!((rows[0].name.as_str(), rows[0].description.as_str(), rows[0].line, rows[0].location.as_str()), ("foo", "Function", 3, "/a.rs"));
    assert!(!s.gave_up());
    assert_eq!(s.phase(), Phase::Done);
}

#[test]
fn empty_results_are_retried_until_non_empty() {
    for n in 0..4u32 {
        let mut s = Session::new("foo", no_filter(), 10);
        exchange(s.start(1, "/"));
        let mut sends = 0;
        let (frames, _) = exchange(s.on_reply(&parse_json("{\"id\":0}").unwrap()));
        sends += frames.iter().filter(|f| **f == symbol_request("foo")).count();
        let empty = parse_json("{\"id\":10,\"result\":[]}").unwrap();
        for _ in 0..n {
            let (frames, id) = exchange(s.on_reply(&empty));
            assert_eq!(id, 10);
            sends += frames.iter().filter(|f| **f == symbol_request("foo")).count();
        }
        let full = parse_json(
            "{\"id\":10,\"result\":[{\"name\":\"foo\",\"kind\":5,\"location\":{\"uri\":\"file:///b.rs\",\"range\":{\"start\":{\"line\":0,\"character\":0}}}}]}",
        )
        .unwrap();
        assert!(matches!(s.on_reply(&full), Action::Finished));
        assert_eq!(sends as u32, n + 1);
        assert_eq!(s.symbol_attempts(), n + 1);
        assert_eq!(s.rows().len(), 1);
        assert_eq!(s.rows()[0].kind, "Class");
    }
}

#[test]
fn retry_bound_gives_up_with_empty_result() {
    let mut s = Session::new("foo", no_filter(), 2);
    exchange(s.start(1, "/"));
    exchange(s.on_reply(&parse_json("{\"id\":0}").unwrap()));
    let empty = parse_json("{\"id\":10,\"result\":[]}").unwrap();
    exchange(s.on_reply(&empty));
    assert!(matches!(s.on_reply(&empty), Action::Finished));
    assert!(s.gave_up());
    assert_eq!(s.symbol_attempts(), 2);
    assert!(s.rows().is_empty());
}

#[test]
fn variable_entry_is_resolved_by_hover() {
    let mut s = Session::new("", no_filter(), 1);
    exchange(s.start(1, "/"));
    exchange(s.on_reply(&parse_json("{\"id\":0}").unwrap()));
    let reply = parse_json(
        "{\"id\":10,\"result\":[{\"name\":\"count\",\"kind\":13,\"location\":{\"uri\":\"file:///c.rs\",\"range\":{\"start\":{\"line\":4,\"character\":8}}}},{\"name\":\"f\",\"kind\":12,\"location\":{\"uri\":\"file:///c.rs\",\"range\":{\"start\":{\"line\":9,\"character\":3}}}}]}",
    )
    .unwrap();
    let (frames, id) = exchange(s.on_reply(&reply));
    assert_eq!(frames, vec![hover("file:///c.rs", 4, 8)]);
    assert_eq!(id, 20);
    assert!(s.rows().is_empty());
    let hover_reply =
        parse_json("{\"id\":20,\"result\":{\"contents\":[{\"language\":\"rust\",\"value\":\"usize\"}]}}").unwrap();
    assert!(matches!(s.on_reply(&hover_reply), Action::Finished));
    let rows = s.rows();
    assert_eq!(rows.len(), 2);
    assert_eq!(rows[0].name, "count");
    assert_eq!(rows[0].kind, "Variable");
    assert_eq!(rows[0].description, "usize");
    assert_eq!(rows[1].description, "Function");
}
