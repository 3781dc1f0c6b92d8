use lsp_symbols::json::{parse_json, Json};
use lsp_symbols::results::{
    accepts_kind, entry_passes, get_symbol_type, hover_text, in_toolchain, resolve_row,
    select_entries, strip_scheme, FilterConfig, ResultJson,
};

fn filter(kinds: &[&str], filename: &str, name_pattern: &str) -> FilterConfig {
    FilterConfig {
        kinds: kinds.iter().map(|k| k.to_string()).collect(),
        filename: filename.to_string(),
        name_pattern: name_pattern.to_string(),
    }
}

fn entry(name: &str, kind: u32, uri: &str) -> ResultJson {
    ResultJson { name: name.to_string(), kind_int: kind, location: uri.to_string(), line: 1, character: 2 }
}

#[test]
fn kind_table_is_complete() {
    let labels = [
        "File", "Module", "Namespace", "Package", "Class", "Method", "Property", "Field",
        "Constructor", "Enum", "Interface", "Function", "Variable", "Constant", "String",
        "Number", "Boolean", "Array", "Object", "Key", "Null", "EnumMember", "Struct", "Event",
        "Operator", "TypeParameter",
    ];
    for (i, label) in labels.iter().enumerate() {
        assert_eq!(get_symbol_type(i as u32 + 1), *label);
    }
    assert_eq!(get_symbol_type(0), "Unknown");
    assert_eq!(get_symbol_type(27), "Unknown");
    assert_eq!(get_symbol_type(u32::MAX), "Unknown");
}

#[test]
fn class_filter_excludes_function() {
    let f = filter(&["Class"], "", "");
    assert!(!entry_passes(&f, &entry("foo", 12, "file:///a.rs")));
    assert!(entry_passes(&f, &entry("Foo", 5, "file:///a.rs")));
}

#[test]
fn empty_or_all_filter_accepts_every_kind() {
    for kinds in [&[][..], &["All"][..], &["Struct", "All"][..]] {
        let f = filter(kinds, "", "");
        for code in [0u32, 1, 12, 13, 26, 99] {
            assert!(entry_passes(&f, &entry("x", code, "file:///src/x.rs")));
        }
    }
    assert!(accepts_kind(&vec![], "Anything"));
    assert!(!accepts_kind(&vec!["Enum".to_string()], "Struct"));
}

#[test]
fn toolchain_entries_are_excluded() {
    let f = filter(&[], "", "");
    assert!(!entry_passes(&f, &entry("x", 12, "file:///home/u/.rustup/toolchains/lib.rs")));
    assert!(!entry_passes(&f, &entry("x", 12, "file:///home/u/.cargo/registry/a.rs")));
    assert!(in_toolchain("/x/.cargo/y"));
    assert!(!in_toolchain("/x/cargo/y"));
}

#[test]
fn file_and_name_filters() {
    let f = filter(&[], "main", "par");
    assert!(entry_passes(&f, &entry("parse", 12, "file:///src/main.rs")));
    assert!(!entry_passes(&f, &entry("parse", 12, "file:///src/lib.rs")));
    assert!(!entry_passes(&f, &entry("run", 12, "file:///src/main.rs")));
}

#[test]
fn scheme_is_stripped() {
    assert_eq!(strip_scheme("file:///a.rs"), "/a.rs");
    assert_eq!(strip_scheme("/plain/path"), "/plain/path");
    assert_eq!(strip_scheme("file://x/file://y"), "x/y");
    assert_eq!(strip_scheme("file:/"), "file:/");
}

#[test]
fn end_to_end_symbol_reply_gives_one_row() {
    let reply = parse_json(
        "{\"id\":10,\"result\":[{\"name\":\"foo\",\"kind\":12,\"location\":{\"uri\":\"file:///a.rs\",\"range\":{\"start\":{\"line\":3,\"character\":1}}}}]}",
    )
    .unwrap();
    let entries = select_entries(&reply, &filter(&[], "", ""));
    assert_eq!(entries.len(), 1);
    let row = resolve_row(&entries[0], get_symbol_type(entries[0].kind_int));
    assert_eq!(row.name, "foo");
    assert_eq!(row.kind, "Function");
    assert_eq!(row.description, "Function");
    assert_eq!(row.line, 3);
    assert_eq!(row.location, "/a.rs");
}

#[test]
fn ill_formed_entries_are_skipped() {
    let reply = parse_json(
        "{\"result\":[{\"name\":\"a\"},{\"name\":\"b\",\"kind\":5,\"location\":{\"uri\":\"u\",\"range\":{\"start\":{\"line\":0,\"character\":0}}}}]}",
    )
    .unwrap();
    let entries = select_entries(&reply, &filter(&[], "", ""));
    assert_eq!(entries.len(), 1);
    assert_eq!(entries[0].name, "b");
    assert_eq!(select_entries(&Json::Null, &filter(&[], "", "")).len(), 0);
}

#[test]
fn hover_text_reads_first_content_value() {
    let reply = parse_json("{\"id\":20,\"result\":{\"contents\":[{\"language\":\"rust\",\"value\":\"i32\"}]}}").unwrap();
    assert_eq!(hover_text(&reply), "i32");
    let number = parse_json("{\"result\":{\"contents\":[{\"value\":7}]}}").unwrap();
    assert_eq!(hover_text(&number), "7");
    assert_eq!(hover_text(&parse_json("{\"result\":null}").unwrap()), "null");
}
