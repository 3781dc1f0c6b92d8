use lsp_symbols::json::Json;
use lsp_symbols::results::{get_parsed_result_json, get_response_array_length, get_symbol_type};

fn member(key: &str, value: Json) -> (String, Json) {
    (key.to_string(), value)
}

#[test]
fn get_symbol_type_returns_unknown() {
    assert_eq!("Unknown", get_symbol_type(99));
}

#[test]
fn get_response_array_length_returns_correct_length() {
    let test_msg = Json::Object(vec![member(
        "result",
        Json::Array(vec![
            Json::number(0),
            Json::number(1),
            Json::number(2),
            Json::number(3),
            Json::number(4),
        ]),
    )]);

    let result_len = get_response_array_length(&test_msg);

    assert!(result_len == 5);
}

#[test]
#[allow(non_snake_case)]
fn response_properly_parsed_to_Result_Json() {
    let test_msg = Json::Object(vec![member(
        "result",
        Json::Array(vec![Json::Object(vec![
            member("name", Json::text("test")),
            member("kind", Json::number(69)),
            member(
                "location",
                Json::Object(vec![
                    member("uri", Json::text("FooBar.rs")),
                    member(
                        "range",
                        Json::Object(vec![member(
                            "start",
                            Json::Object(vec![
                                member("line", Json::number(420)),
                                member("character", Json::number(22)),
                            ]),
                        )]),
                    ),
                ]),
            ),
        ])]),
    )]);

    let result_json = get_parsed_result_json(&test_msg, 0).unwrap();

    assert!(result_json.name == "test");
    assert!(result_json.kind_int == 69);
    assert!(result_json.location == "FooBar.rs");
    assert!(result_json.line == 420);
    assert!(result_json.character == 22);
}
