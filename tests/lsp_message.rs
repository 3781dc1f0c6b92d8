use lsp_symbols::requests::{
    hover, init_notification, init_request, symbol_request, HOVER_REQUEST_ID, INIT_NOTIFY_ID,
    INIT_REQUEST_ID, SYMBOL_REQUEST_ID,
};

#[test]
fn init_req_id_is_0() {
    assert_eq!(0, INIT_REQUEST_ID);
}

#[test]
fn init_req_has_proper_id() {
    let init_req_json = init_request(4242, "/home/user/project");
    assert!(init_req_json.contains("\"id\":0"));
}

#[test]
fn init_notification_id_is_1() {
    assert_eq!(1, INIT_NOTIFY_ID);
}

#[test]
fn init_notification_has_proper_id() {
    let init_notify_json = init_notification();
    assert!(init_notify_json.contains("\"id\":1"));
}

#[test]
fn symbol_req_id_is_10() {
    assert_eq!(10, SYMBOL_REQUEST_ID);
}

#[test]
fn symbol_req_has_proper_id() {
    let symbol_req_json = symbol_request("fooBar");
    assert!(symbol_req_json.contains("\"id\":10"));
}

#[test]
fn symbol_req_has_passed_symbol() {
    let symbol_req_json = symbol_request("fooBar");
    assert!(symbol_req_json.contains("\"query\":\"fooBar\""));
}

#[test]
fn hover_req_id_is_20() {
    assert_eq!(20, HOVER_REQUEST_ID);
}

#[test]
fn hover_req_has_proper_id() {
    let hover_json = hover("foobar.rs", 420, 69);
    assert!(hover_json.contains("\"id\":20"));
}

#[test]
fn hover_req_has_passed_document_path() {
    let hover_json = hover("foobar.rs", 420, 69);
    assert!(hover_json.contains("\"uri\":\"foobar.rs\""));
}

#[test]
fn hover_req_has_passed_line_num() {
    let hover_json = hover("fooBar.rs", 420, 69);
    assert!(hover_json.contains("\"line\":420"));
}

#[test]
fn hover_is_has_passed_character_num() {
    let hover_json = hover("fooBar.rs", 420, 69);
    assert!(hover_json.contains("\"character\":69"));
}

#[test]
fn document_symbol_request_carries_uri() {
    let framed = lsp_symbols::requests::document_symbol_request("file:///a.rs");
    assert!(framed.contains("\"id\":30"));
    assert!(framed.contains("\"method\":\"textDocument/documentSymbol\""));
    assert!(framed.contains("\"params\":{\"textDocument\":{\"uri\":\"file:///a.rs\"}}"));
}

#[test]
fn init_request_carries_root_and_capabilities() {
    let framed = init_request(4242, "/home/user/project");
    assert!(framed.starts_with("Content-Length: "));
    assert!(framed.contains("\"processid\":4242"));
    assert!(framed.contains("\"rootPath\":\"/home/user/project\""));
    assert!(framed.contains("\"rootUri\":\"file:///home/user/project\""));
    assert!(framed.contains("\"valueSet\":[1,2,3,4,5,6,7,8,9,10,11,12,13,14,15,16,17,18,19,20,21,22,23,24,25,26]"));
    assert!(framed.contains("\"contentFormat\":[\"markdown\",\"plaintext\"]"));
    assert!(framed.contains("\"foldingRange\":{\"dynamicRegistration\":false,\"rangeLimit\":5000,\"lineFoldingOnly\":true}"));
    let (header, body) = framed.split_once("\r\n\r\n").unwrap();
    assert_eq!(header, format!("Content-Length: {}", body.len()));
}

#[test]
fn project_uri_prefixes_scheme() {
    assert_eq!(lsp_symbols::requests::get_project_uri("/srv/code"), "file:///srv/code");
}
