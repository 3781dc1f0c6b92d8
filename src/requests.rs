use vstd::prelude::*;
use vstd::utf8::encode_utf8;
use crate::codec::{decode_frame, frame, frame_text, FrameError};
use crate::codec_proofs::lemma_frame_round_trip;
use crate::json::{
    dump_json, group_json_lemmas, json_dump, member_trees, tree, trees, Json, JsonTree,
};

verus! {

/// The id of the `initialize` request.
pub const INIT_REQUEST_ID: u32 = 0;

/// The id carried by the `initialized` notification.
pub const INIT_NOTIFY_ID: u32 = 1;

/// The id of the `workspace/symbol` request.
pub const SYMBOL_REQUEST_ID: u32 = 10;

/// The id of the `textDocument/hover` request.
pub const HOVER_REQUEST_ID: u32 = 20;

/// The id of the `textDocument/documentSymbol` request.
pub const DOCUMENT_SYMBOL_REQUEST_ID: u32 = 30;

pub open spec fn num(n: nat) -> JsonTree {
    JsonTree::Number(true, n as u64, 0)
}

/// A JSON-RPC message: its id, the protocol version, the method and its parameters.
pub open spec fn message_tree(id: u32, method: Seq<char>, params: JsonTree) -> JsonTree {
    JsonTree::Object(
        seq![
            ("id"@, num(id as nat)),
            ("jsonrpc"@, num(2)),
            ("method"@, JsonTree::Text(method)),
            ("params"@, params),
        ],
    )
}

/// `{"dynamicRegistration": b}`
pub open spec fn registration_tree(b: bool) -> JsonTree {
    JsonTree::Object(seq![("dynamicRegistration"@, JsonTree::Bool(b))])
}

/// The codes `1..=n`.
pub open spec fn codes(n: nat) -> Seq<JsonTree> {
    Seq::new(n, |i: int| num((i + 1) as nat))
}

/// `{"valueSet": [1, ..., n]}`
pub open spec fn value_set_tree(n: nat) -> JsonTree {
    JsonTree::Object(seq![("valueSet"@, JsonTree::Array(codes(n)))])
}

/// `["markdown", "plaintext"]`
pub open spec fn formats_tree() -> JsonTree {
    JsonTree::Array(seq![JsonTree::Text("markdown"@), JsonTree::Text("plaintext"@)])
}

/// `{"dynamicRegistration": true, "symbolKind": {"valueSet": [1, ..., 26]}}`
pub open spec fn symbol_tree() -> JsonTree {
    JsonTree::Object(
        seq![("dynamicRegistration"@, JsonTree::Bool(true)), ("symbolKind"@, value_set_tree(26))],
    )
}

pub open spec fn workspace_tree() -> JsonTree {
    JsonTree::Object(
        seq![
            ("applyEdit"@, JsonTree::Bool(true)),
            ("workspaceEdit"@, JsonTree::Object(seq![("documentChanges"@, JsonTree::Bool(true))])),
            ("didChangeConfiguration"@, registration_tree(true)),
            ("didChangeWatchedFiles"@, registration_tree(true)),
            ("symbol"@, symbol_tree()),
            ("executeCommand"@, registration_tree(true)),
            ("configuration"@, JsonTree::Bool(true)),
            ("workspaceFolders"@, JsonTree::Bool(true)),
        ],
    )
}

pub open spec fn completion_tree() -> JsonTree {
    JsonTree::Object(
        seq![
            ("dynamicRegistration"@, JsonTree::Bool(true)),
            ("contextSupport"@, JsonTree::Bool(true)),
            (
                "completionItem"@,
                JsonTree::Object(
                    seq![
                        ("snippetSupport"@, JsonTree::Bool(true)),
                        ("commitCharactersSupport"@, JsonTree::Bool(true)),
                        ("documentationFormat"@, formats_tree()),
                        ("deprecatedSupport"@, JsonTree::Bool(true)),
                    ],
                ),
            ),
            ("completionItemKind"@, value_set_tree(25)),
        ],
    )
}

pub open spec fn hover_capability_tree() -> JsonTree {
    JsonTree::Object(
        seq![("dynamicRegistration"@, JsonTree::Bool(true)), ("contentFormat"@, formats_tree())],
    )
}

pub open spec fn signature_help_tree() -> JsonTree {
    JsonTree::Object(
        seq![
            ("dynamicRegistration"@, JsonTree::Bool(true)),
            (
                "signatureInformation"@,
                JsonTree::Object(seq![("documentationFormat"@, formats_tree())]),
            ),
        ],
    )
}

pub open spec fn folding_range_tree() -> JsonTree {
    JsonTree::Object(
        seq![
            ("dynamicRegistration"@, JsonTree::Bool(false)),
            ("rangeLimit"@, num(5000)),
            ("lineFoldingOnly"@, JsonTree::Bool(true)),
        ],
    )
}

pub open spec fn text_document_tree() -> JsonTree {
    JsonTree::Object(
        seq![
            (
                "publishDiagnostics"@,
                JsonTree::Object(seq![("relatedInformation"@, JsonTree::Bool(true))]),
            ),
            (
                "synchronization"@,
                JsonTree::Object(
                    seq![
                        ("dynamicRegistration"@, JsonTree::Bool(true)),
                        ("willSave"@, JsonTree::Bool(true)),
                        ("willSaveWaitUntil"@, JsonTree::Bool(true)),
                        ("didSave"@, JsonTree::Bool(true)),
                    ],
                ),
            ),
            ("completion"@, completion_tree()),
            ("hover"@, hover_capability_tree()),
            ("signatureHelp"@, signature_help_tree()),
            ("definition"@, registration_tree(true)),
            ("references"@, registration_tree(true)),
            ("documentHighlight"@, registration_tree(true)),
            ("documentSymbol"@, symbol_tree()),
            ("codeAction"@, registration_tree(true)),
            ("codeLens"@, registration_tree(true)),
            ("formatting"@, registration_tree(true)),
            ("rangeFormatting"@, registration_tree(true)),
            ("onTypeFormatting"@, registration_tree(true)),
            ("rename"@, registration_tree(true)),
            ("documentLink"@, registration_tree(true)),
            ("typeDefinition"@, registration_tree(true)),
            ("implementation"@, registration_tree(true)),
            ("colorProvider"@, registration_tree(true)),
            ("foldingRange"@, folding_range_tree()),
        ],
    )
}

/// The features the client declares to the server.
pub open spec fn capabilities_tree() -> JsonTree {
    JsonTree::Object(
        seq![("workspace"@, workspace_tree()), ("textDocument"@, text_document_tree())],
    )
}

/// The `file://` URI of a directory.
pub open spec fn project_uri(root_path: Seq<char>) -> Seq<char> {
    "file://"@ + root_path
}

/// The `initialize` request for a client process and the project's root directory.
pub open spec fn init_request_tree(process_id: u32, root_path: Seq<char>) -> JsonTree {
    message_tree(
        INIT_REQUEST_ID,
        "initialize"@,
        JsonTree::Object(
            seq![
                ("processid"@, num(process_id as nat)),
                ("rootPath"@, JsonTree::Text(root_path)),
                ("rootUri"@, JsonTree::Text(project_uri(root_path))),
                ("capabilities"@, capabilities_tree()),
            ],
        ),
    )
}

/// The `initialized` notification.
pub open spec fn init_notification_tree() -> JsonTree {
    message_tree(INIT_NOTIFY_ID, "initialized"@, JsonTree::Object(Seq::empty()))
}

/// The `workspace/symbol` request for a query.
pub open spec fn symbol_request_tree(query: Seq<char>) -> JsonTree {
    message_tree(
        SYMBOL_REQUEST_ID,
        "workspace/symbol"@,
        JsonTree::Object(seq![("query"@, JsonTree::Text(query))]),
    )
}

/// The `textDocument/hover` request for a position in a document.
pub open spec fn hover_request_tree(document: Seq<char>, line: u32, character: u32) -> JsonTree {
    message_tree(
        HOVER_REQUEST_ID,
        "textDocument/hover"@,
        JsonTree::Object(
            seq![
                ("textDocument"@, JsonTree::Object(seq![("uri"@, JsonTree::Text(document))])),
                (
                    "position"@,
                    JsonTree::Object(
                        seq![("line"@, num(line as nat)), ("character"@, num(character as nat))],
                    ),
                ),
            ],
        ),
    )
}

/// The `textDocument/documentSymbol` request for a document.
pub open spec fn document_symbol_request_tree(document: Seq<char>) -> JsonTree {
    message_tree(
        DOCUMENT_SYMBOL_REQUEST_ID,
        "textDocument/documentSymbol"@,
        JsonTree::Object(
            seq![("textDocument"@, JsonTree::Object(seq![("uri"@, JsonTree::Text(document))]))],
        ),
    )
}

/// The bytes of text that go on the wire for a message.
pub open spec fn wire_text(message: JsonTree) -> Seq<char> {
    frame_text(json_dump(message))
}

fn entry(key: &str, value: Json) -> (r: (String, Json))
    ensures
        r.0@ == key@,
        r.1 == value,
{
    (key.to_owned(), value)
}

fn registration(b: bool) -> (r: Json)
    ensures
        r@ == registration_tree(b),
{
    broadcast use group_json_lemmas;

    let members = vec![entry("dynamicRegistration", Json::Bool(b))];
    let ghost ms = members@;
    let r = Json::Object(members);
    assert(member_trees(ms) =~= seq![("dynamicRegistration"@, JsonTree::Bool(b))]);
    r
}

fn value_set(n: u32) -> (r: Json)
    ensures
        r@ == value_set_tree(n as nat),
{
    broadcast use group_json_lemmas;

    let mut items: Vec<Json> = Vec::new();
    let mut i: u32 = 0;
    while i < n
        invariant
            i <= n,
            items@.len() == i,
            forall|j: int| 0 <= j < i ==> tree(#[trigger] items@[j]) == num((j + 1) as nat),
        decreases n - i,
    {
        items.push(Json::number(i + 1));
        i = i + 1;
    }
    assert(trees(items@) =~= codes(n as nat));
    let members = vec![entry("valueSet", Json::Array(items))];
    let ghost ms = members@;
    let r = Json::Object(members);
    assert(member_trees(ms) =~= seq![("valueSet"@, JsonTree::Array(codes(n as nat)))]);
    r
}

fn formats() -> (r: Json)
    ensures
        r@ == formats_tree(),
{
    broadcast use group_json_lemmas;

    let items = vec![Json::text("markdown"), Json::text("plaintext")];
    let ghost v = items@;
    let r = Json::Array(items);
    assert(trees(v) =~= seq![JsonTree::Text("markdown"@), JsonTree::Text("plaintext"@)]);
    r
}

fn symbol() -> (r: Json)
    ensures
        r@ == symbol_tree(),
{
    broadcast use group_json_lemmas;

    let members = vec![
        entry("dynamicRegistration", Json::Bool(true)),
        entry("symbolKind", value_set(26)),
    ];
    let ghost ms = members@;
    let r = Json::Object(members);
    assert(member_trees(ms) =~= seq![
        ("dynamicRegistration"@, JsonTree::Bool(true)),
        ("symbolKind"@, value_set_tree(26)),
    ]);
    r
}

fn workspace() -> (r: Json)
    ensures
        r@ == workspace_tree(),
{
    broadcast use group_json_lemmas;

    let edit = vec![entry("documentChanges", Json::Bool(true))];
    let ghost es = edit@;
    let members = vec![
        entry("applyEdit", Json::Bool(true)),
        entry("workspaceEdit", Json::Object(edit)),
        entry("didChangeConfiguration", registration(true)),
        entry("didChangeWatchedFiles", registration(true)),
        entry("symbol", symbol()),
        entry("executeCommand", registration(true)),
        entry("configuration", Json::Bool(true)),
        entry("workspaceFolders", Json::Bool(true)),
    ];
    let ghost ms = members@;
    let r = Json::Object(members);
    assert(member_trees(es) =~= seq![("documentChanges"@, JsonTree::Bool(true))]);
    assert(member_trees(ms) =~= match workspace_tree() {
        JsonTree::Object(m) => m,
        _ => Seq::empty(),
    });
    r
}

fn completion() -> (r: Json)
    ensures
        r@ == completion_tree(),
{
    broadcast use group_json_lemmas;

    let item = vec![
        entry("snippetSupport", Json::Bool(true)),
        entry("commitCharactersSupport", Json::Bool(true)),
        entry("documentationFormat", formats()),
        entry("deprecatedSupport", Json::Bool(true)),
    ];
    let ghost its = item@;
    let members = vec![
        entry("dynamicRegistration", Json::Bool(true)),
        entry("contextSupport", Json::Bool(true)),
        entry("completionItem", Json::Object(item)),
        entry("completionItemKind", value_set(25)),
    ];
    let ghost ms = members@;
    let r = Json::Object(members);
    assert(member_trees(its) =~= seq![
        ("snippetSupport"@, JsonTree::Bool(true)),
        ("commitCharactersSupport"@, JsonTree::Bool(true)),
        ("documentationFormat"@, formats_tree()),
        ("deprecatedSupport"@, JsonTree::Bool(true)),
    ]);
    assert(member_trees(ms) =~= completion_tree()->Object_0);
    r
}

fn hover_capability() -> (r: Json)
    ensures
        r@ == hover_capability_tree(),
{
    broadcast use group_json_lemmas;

    let members = vec![
        entry("dynamicRegistration", Json::Bool(true)),
        entry("contentFormat", formats()),
    ];
    let ghost ms = members@;
    let r = Json::Object(members);
    assert(member_trees(ms) =~= hover_capability_tree()->Object_0);
    r
}

fn signature_help() -> (r: Json)
    ensures
        r@ == signature_help_tree(),
{
    broadcast use group_json_lemmas;

    let info = vec![entry("documentationFormat", formats())];
    let ghost is = info@;
    let members = vec![
        entry("dynamicRegistration", Json::Bool(true)),
        entry("signatureInformation", Json::Object(info)),
    ];
    let ghost ms = members@;
    let r = Json::Object(members);
    assert(member_trees(is) =~= seq![("documentationFormat"@, formats_tree())]);
    assert(member_trees(ms) =~= signature_help_tree()->Object_0);
    r
}

fn folding_range() -> (r: Json)
    ensures
        r@ == folding_range_tree(),
{
    broadcast use group_json_lemmas;

    let members = vec![
        entry("dynamicRegistration", Json::Bool(false)),
        entry("rangeLimit", Json::number(5000)),
        entry("lineFoldingOnly", Json::Bool(true)),
    ];
    let ghost ms = members@;
    let r = Json::Object(members);
    assert(member_trees(ms) =~= folding_range_tree()->Object_0);
    r
}

fn text_document() -> (r: Json)
    ensures
        r@ == text_document_tree(),
{
    broadcast use group_json_lemmas;

    let diagnostics = vec![entry("relatedInformation", Json::Bool(true))];
    let ghost ds = diagnostics@;
    let sync = vec![
        entry("dynamicRegistration", Json::Bool(true)),
        entry("willSave", Json::Bool(true)),
        entry("willSaveWaitUntil", Json::Bool(true)),
        entry("didSave", Json::Bool(true)),
    ];
    let ghost ss = sync@;
    let members = vec![
        entry("publishDiagnostics", Json::Object(diagnostics)),
        entry("synchronization", Json::Object(sync)),
        entry("completion", completion()),
        entry("hover", hover_capability()),
        entry("signatureHelp", signature_help()),
        entry("definition", registration(true)),
        entry("references", registration(true)),
        entry("documentHighlight", registration(true)),
        entry("documentSymbol", symbol()),
        entry("codeAction", registration(true)),
        entry("codeLens", registration(true)),
        entry("formatting", registration(true)),
        entry("rangeFormatting", registration(true)),
        entry("onTypeFormatting", registration(true)),
        entry("rename", registration(true)),
        entry("documentLink", registration(true)),
        entry("typeDefinition", registration(true)),
        entry("implementation", registration(true)),
        entry("colorProvider", registration(true)),
        entry("foldingRange", folding_range()),
    ];
    let ghost ms = members@;
    let r = Json::Object(members);
    assert(member_trees(ds) =~= seq![("relatedInformation"@, JsonTree::Bool(true))]);
    assert(member_trees(ss) =~= seq![
        ("dynamicRegistration"@, JsonTree::Bool(true)),
        ("willSave"@, JsonTree::Bool(true)),
        ("willSaveWaitUntil"@, JsonTree::Bool(true)),
        ("didSave"@, JsonTree::Bool(true)),
    ]);
    assert(member_trees(ms) =~= text_document_tree()->Object_0);
    r
}

fn capabilities() -> (r: Json)
    ensures
        r@ == capabilities_tree(),
{
    broadcast use group_json_lemmas;

    let members = vec![entry("workspace", workspace()), entry("textDocument", text_document())];
    let ghost ms = members@;
    let r = Json::Object(members);
    assert(member_trees(ms) =~= capabilities_tree()->Object_0);
    r
}

/// A JSON-RPC message with its id, method and parameters.
pub fn message(id: u32, method: &str, params: Json) -> (r: Json)
    ensures
        r@ == message_tree(id, method@, params@),
{
    broadcast use group_json_lemmas;

    let members = vec![
        entry("id", Json::number(id)),
        entry("jsonrpc", Json::number(2)),
        entry("method", Json::text(method)),
        entry("params", params),
    ];
    let ghost ms = members@;
    let r = Json::Object(members);
    assert(member_trees(ms) =~= message_tree(id, method@, params@)->Object_0);
    r
}

/// The `file://` URI of the project's root directory.
pub fn get_project_uri(root_path: &str) -> (r: String)
    ensures
        r@ == project_uri(root_path@),
{
    let mut r = "file://".to_owned();
    r.append(root_path);
    r
}

/// The `initialize` request as a document.
pub fn init_request_message(process_id: u32, root_path: &str) -> (r: Json)
    ensures
        r@ == init_request_tree(process_id, root_path@),
{
    broadcast use group_json_lemmas;

    let uri = get_project_uri(root_path);
    let members = vec![
        entry("processid", Json::number(process_id)),
        entry("rootPath", Json::text(root_path)),
        entry("rootUri", Json::Text(uri)),
        entry("capabilities", capabilities()),
    ];
    let ghost ms = members@;
    let params = Json::Object(members);
    assert(member_trees(ms) =~= init_request_tree(process_id, root_path@)->Object_0[3].1->Object_0);
    message(INIT_REQUEST_ID, "initialize", params)
}

/// The `initialized` notification as a document.
pub fn init_notification_message() -> (r: Json)
    ensures
        r@ == init_notification_tree(),
{
    broadcast use group_json_lemmas;

    let members: Vec<(String, Json)> = Vec::new();
    let ghost ms = members@;
    let params = Json::Object(members);
    assert(member_trees(ms) =~= Seq::<(Seq<char>, JsonTree)>::empty());
    message(INIT_NOTIFY_ID, "initialized", params)
}

/// The `workspace/symbol` request as a document.
pub fn symbol_request_message(query: &str) -> (r: Json)
    ensures
        r@ == symbol_request_tree(query@),
{
    broadcast use group_json_lemmas;

    let members = vec![entry("query", Json::text(query))];
    let ghost ms = members@;
    let params = Json::Object(members);
    assert(member_trees(ms) =~= seq![("query"@, JsonTree::Text(query@))]);
    message(SYMBOL_REQUEST_ID, "workspace/symbol", params)
}

/// The `textDocument/hover` request as a document.
pub fn hover_message(document: &str, line: u32, character: u32) -> (r: Json)
    ensures
        r@ == hover_request_tree(document@, line, character),
{
    broadcast use group_json_lemmas;

    let doc = vec![entry("uri", Json::text(document))];
    let ghost ds = doc@;
    let position = vec![entry("line", Json::number(line)), entry("character", Json::number(character))];
    let ghost ps = position@;
    let members = vec![entry("textDocument", Json::Object(doc)), entry("position", Json::Object(position))];
    let ghost ms = members@;
    let params = Json::Object(members);
    assert(member_trees(ds) =~= seq![("uri"@, JsonTree::Text(document@))]);
    assert(member_trees(ps) =~= seq![("line"@, num(line as nat)), ("character"@, num(character as nat))]);
    assert(member_trees(ms) =~= hover_request_tree(document@, line, character)->Object_0[3].1->Object_0);
    message(HOVER_REQUEST_ID, "textDocument/hover", params)
}

/// The `textDocument/documentSymbol` request as a document.
pub fn document_symbol_message(document: &str) -> (r: Json)
    ensures
        r@ == document_symbol_request_tree(document@),
{
    broadcast use group_json_lemmas;

    let doc = vec![entry("uri", Json::text(document))];
    let ghost ds = doc@;
    let members = vec![entry("textDocument", Json::Object(doc))];
    let ghost ms = members@;
    let params = Json::Object(members);
    assert(member_trees(ds) =~= seq![("uri"@, JsonTree::Text(document@))]);
    assert(member_trees(ms) =~= document_symbol_request_tree(document@)->Object_0[3].1->Object_0);
    message(DOCUMENT_SYMBOL_REQUEST_ID, "textDocument/documentSymbol", params)
}

/// Frames a message for the wire: its compact JSON text behind a `Content-Length` header.
pub fn encode(message: &Json) -> (r: String)
    ensures
        r@ == wire_text(message@),
{
    frame(dump_json(message).as_str())
}

/// The framed `initialize` request.
pub fn init_request(process_id: u32, root_path: &str) -> (r: String)
    ensures
        r@ == wire_text(init_request_tree(process_id, root_path@)),
{
    encode(&init_request_message(process_id, root_path))
}

/// The framed `initialized` notification.
pub fn init_notification() -> (r: String)
    ensures
        r@ == wire_text(init_notification_tree()),
{
    encode(&init_notification_message())
}

/// The framed `workspace/symbol` request for a query.
pub fn symbol_request(symbol_name: &str) -> (r: String)
    ensures
        r@ == wire_text(symbol_request_tree(symbol_name@)),
{
    encode(&symbol_request_message(symbol_name))
}

/// The framed `textDocument/hover` request for a position in a document.
pub fn hover(document: &str, line: u32, character: u32) -> (r: String)
    ensures
        r@ == wire_text(hover_request_tree(document@, line, character)),
{
    encode(&hover_message(document, line, character))
}

/// The framed `textDocument/documentSymbol` request for a document.
pub fn document_symbol_request(document: &str) -> (r: String)
    ensures
        r@ == wire_text(document_symbol_request_tree(document@)),
{
    encode(&document_symbol_message(document))
}

/// Round trip for messages: the wire text of a message, followed by anything, is read
/// back as the message's JSON text, and the read ends just after it.
pub proof fn lemma_message_round_trip(message: JsonTree, rest: Seq<u8>)
    requires
        encode_utf8(json_dump(message)).len() <= usize::MAX,
    ensures
        decode_frame(encode_utf8(wire_text(message)) + rest) == Ok::<(Seq<char>, int), FrameError>(
            (json_dump(message), encode_utf8(wire_text(message)).len() as int),
        ),
{
    lemma_frame_round_trip(json_dump(message), rest);
}
} // verus!
