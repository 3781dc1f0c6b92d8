use vstd::prelude::*;
use vstd::string::*;
use crate::json::{
    dump_json, element, json_dump, member, ref_tree, tree_text, tree_u32, Json, JsonTree,
};
use crate::text::{push_char, same_text};

verus! {

/// The kind code that the table labels `Variable`: entries of this kind are resolved
/// through a hover lookup.
pub const VARIABLE_KIND: u32 = 13;

/// The label of a symbol kind code, by the fixed table of the protocol.
pub open spec fn kind_label(code: u32) -> Seq<char> {
    if code == 1 {
        "File"@
    } else if code == 2 {
        "Module"@
    } else if code == 3 {
        "Namespace"@
    } else if code == 4 {
        "Package"@
    } else if code == 5 {
        "Class"@
    } else if code == 6 {
        "Method"@
    } else if code == 7 {
        "Property"@
    } else if code == 8 {
        "Field"@
    } else if code == 9 {
        "Constructor"@
    } else if code == 10 {
        "Enum"@
    } else if code == 11 {
        "Interface"@
    } else if code == 12 {
        "Function"@
    } else if code == 13 {
        "Variable"@
    } else if code == 14 {
        "Constant"@
    } else if code == 15 {
        "String"@
    } else if code == 16 {
        "Number"@
    } else if code == 17 {
        "Boolean"@
    } else if code == 18 {
        "Array"@
    } else if code == 19 {
        "Object"@
    } else if code == 20 {
        "Key"@
    } else if code == 21 {
        "Null"@
    } else if code == 22 {
        "EnumMember"@
    } else if code == 23 {
        "Struct"@
    } else if code == 24 {
        "Event"@
    } else if code == 25 {
        "Operator"@
    } else if code == 26 {
        "TypeParameter"@
    } else {
        "Unknown"@
    }
}

/// The label of a symbol kind code.
pub fn get_symbol_type(kind: u32) -> (r: String)
    ensures
        r@ == kind_label(kind),
{
    let label = match kind {
        1 => "File",
        2 => "Module",
        3 => "Namespace",
        4 => "Package",
        5 => "Class",
        6 => "Method",
        7 => "Property",
        8 => "Field",
        9 => "Constructor",
        10 => "Enum",
        11 => "Interface",
        12 => "Function",
        13 => "Variable",
        14 => "Constant",
        15 => "String",
        16 => "Number",
        17 => "Boolean",
        18 => "Array",
        19 => "Object",
        20 => "Key",
        21 => "Null",
        22 => "EnumMember",
        23 => "Struct",
        24 => "Event",
        25 => "Operator",
        26 => "TypeParameter",
        _ => "Unknown",
    };
    label.to_owned()
}

/// Codes outside the table are labelled `Unknown`.
pub proof fn lemma_unknown_kind(code: u32)
    requires
        code == 0 || code > 26,
    ensures
        kind_label(code) == "Unknown"@,
{
}

/// `pat` occurs in `s`.
pub open spec fn contains(s: Seq<char>, pat: Seq<char>) -> bool {
    exists|i: int| 0 <= i <= s.len() - pat.len() && #[trigger] s.subrange(i, i + pat.len()) == pat
}

/// `pat` occurs in `s`.
pub fn contains_text(s: &str, pat: &str) -> (r: bool)
    ensures
        r == contains(s@, pat@),
{
    let n = s.unicode_len();
    let m = pat.unicode_len();
    if m > n {
        return false;
    }
    let mut i: usize = 0;
    loop
        invariant
            n == s@.len(),
            m == pat@.len(),
            m <= n,
            i <= n - m,
            forall|j: int| 0 <= j < i ==> #[trigger] s@.subrange(j, j + m) != pat@,
        decreases n - m - i,
    {
        if same_text(s.substring_char(i, i + m), pat) {
            return true;
        }
        if i == n - m {
            return false;
        }
        i = i + 1;
    }
}

/// `s` with every occurrence of `pat` taken out, scanning from the left.
pub open spec fn remove_all(s: Seq<char>, pat: Seq<char>) -> Seq<char>
    decreases s.len(),
{
    if s.len() == 0 || pat.len() == 0 {
        s
    } else if pat.len() <= s.len() && s.subrange(0, pat.len() as int) == pat {
        remove_all(s.subrange(pat.len() as int, s.len() as int), pat)
    } else {
        seq![s[0]] + remove_all(s.subrange(1, s.len() as int), pat)
    }
}

/// The scheme marker taken out of a location before it is shown.
pub open spec fn file_scheme() -> Seq<char> {
    "file://"@
}

/// A location as shown: the URI without its `file://` scheme.
pub open spec fn shown_location(uri: Seq<char>) -> Seq<char> {
    remove_all(uri, file_scheme())
}

/// The location of a URI as shown, with every `file://` taken out.
pub fn strip_scheme(uri: &str) -> (r: String)
    ensures
        r@ == shown_location(uri@),
{
    let scheme = "file://";
    proof {
        reveal_strlit("file://");
    }
    let n = uri.unicode_len();
    let m = scheme.unicode_len();
    let mut out = String::new();
    let mut i: usize = 0;
    assert(uri@.subrange(0, n as int) =~= uri@);
    while i < n
        invariant
            n == uri@.len(),
            m == scheme@.len(),
            m == 7,
            i <= n,
            out@ + remove_all(uri@.subrange(i as int, n as int), scheme@) == remove_all(
                uri@,
                scheme@,
            ),
        decreases n - i,
    {
        let ghost rest = uri@.subrange(i as int, n as int);
        if m <= n - i && same_text(uri.substring_char(i, i + m), scheme) {
            assert(rest.subrange(0, m as int) =~= uri@.subrange(i as int, i + m));
            assert(rest.subrange(m as int, rest.len() as int) =~= uri@.subrange(i + m, n as int));
            i = i + m;
        } else {
            let c = uri.get_char(i);
            if m <= n - i {
                assert(rest.subrange(0, m as int) =~= uri@.subrange(i as int, i + m));
            }
            assert(rest.subrange(1, rest.len() as int) =~= uri@.subrange(i + 1, n as int));
            let ghost before = out@;
            push_char(&mut out, c);
            assert(out@ + remove_all(uri@.subrange(i + 1, n as int), scheme@) =~= before + (seq![c]
                + remove_all(uri@.subrange(i + 1, n as int), scheme@)));
            i = i + 1;
        }
    }
    assert(uri@.subrange(n as int, n as int) =~= Seq::<char>::empty());
    assert(out@ + Seq::<char>::empty() =~= out@);
    out
}

/// The member `key` of an optional value.
pub open spec fn member_of(t: Option<JsonTree>, key: Seq<char>) -> Option<JsonTree> {
    match t {
        Some(v) => member(v, key),
        None => None,
    }
}

/// Element `i` of an optional value.
pub open spec fn element_of(t: Option<JsonTree>, i: int) -> Option<JsonTree> {
    match t {
        Some(v) => element(v, i),
        None => None,
    }
}

pub open spec fn text_of(t: Option<JsonTree>) -> Option<Seq<char>> {
    match t {
        Some(v) => tree_text(v),
        None => None,
    }
}

pub open spec fn u32_of(t: Option<JsonTree>) -> Option<u32> {
    match t {
        Some(v) => tree_u32(v),
        None => None,
    }
}

fn member_ref<'a>(j: Option<&'a Json>, key: &str) -> (r: Option<&'a Json>)
    ensures
        ref_tree(r) == member_of(ref_tree(j), key@),
{
    match j {
        Some(v) => v.get(key),
        None => None,
    }
}

fn text_ref<'a>(j: Option<&'a Json>) -> (r: Option<&'a str>)
    ensures
        r matches Some(s) ==> text_of(ref_tree(j)) == Some(s@),
        r is None ==> text_of(ref_tree(j)) is None,
{
    match j {
        Some(v) => v.as_text(),
        None => None,
    }
}

fn u32_ref(j: Option<&Json>) -> (r: Option<u32>)
    ensures
        r == u32_of(ref_tree(j)),
{
    match j {
        Some(v) => v.as_u32(),
        None => None,
    }
}

/// A symbol found by a query, as the server reports it.
#[derive(Debug)]
pub struct ResultJson {
    pub name: String,
    pub kind_int: u32,
    pub location: String,
    pub line: u32,
    pub character: u32,
}

/// What a symbol entry says.
pub struct SymbolView {
    pub name: Seq<char>,
    pub kind: u32,
    pub uri: Seq<char>,
    pub line: u32,
    pub character: u32,
}

impl View for ResultJson {
    type V = SymbolView;

    open spec fn view(&self) -> SymbolView {
        SymbolView {
            name: self.name@,
            kind: self.kind_int,
            uri: self.location@,
            line: self.line,
            character: self.character,
        }
    }
}

pub open spec fn location_of(t: JsonTree) -> Option<JsonTree> {
    member(t, "location"@)
}

pub open spec fn start_of(t: JsonTree) -> Option<JsonTree> {
    member_of(member_of(location_of(t), "range"@), "start"@)
}

/// The entry that a result element describes: its `name`, its `kind` code, its
/// `location.uri` and the `location.range.start` position. `None` where one of them
/// is missing or of another type.
pub open spec fn symbol_of(t: JsonTree) -> Option<SymbolView> {
    let name = text_of(member(t, "name"@));
    let kind = u32_of(member(t, "kind"@));
    let uri = text_of(member_of(location_of(t), "uri"@));
    let line = u32_of(member_of(start_of(t), "line"@));
    let character = u32_of(member_of(start_of(t), "character"@));
    if name is Some && kind is Some && uri is Some && line is Some && character is Some {
        Some(
            SymbolView {
                name: name->0,
                kind: kind->0,
                uri: uri->0,
                line: line->0,
                character: character->0,
            },
        )
    } else {
        None
    }
}

pub open spec fn symbol_view(r: Option<ResultJson>) -> Option<SymbolView> {
    match r {
        Some(e) => Some(e@),
        None => None,
    }
}

/// Reads the entry that a result element describes.
pub fn parse_entry(item: &Json) -> (r: Option<ResultJson>)
    ensures
        symbol_view(r) == symbol_of(item@),
{
    let name = text_ref(item.get("name"));
    let kind = u32_ref(item.get("kind"));
    let location = item.get("location");
    let uri = text_ref(member_ref(location, "uri"));
    let start = member_ref(member_ref(location, "range"), "start");
    let line = u32_ref(member_ref(start, "line"));
    let character = u32_ref(member_ref(start, "character"));
    match (name, kind, uri, line, character) {
        (Some(n), Some(k), Some(u), Some(l), Some(c)) => Some(
            ResultJson {
                name: n.to_owned(),
                kind_int: k,
                location: u.to_owned(),
                line: l,
                character: c,
            },
        ),
        _ => None,
    }
}

/// The items of a reply's `result` array.
pub open spec fn result_items(reply: JsonTree) -> Seq<JsonTree> {
    match member(reply, "result"@) {
        Some(JsonTree::Array(items)) => items,
        _ => Seq::empty(),
    }
}

/// The number of entries in a reply's `result` array (none where it is not an array).
pub fn get_response_array_length(json: &Json) -> (r: u64)
    ensures
        r == result_items(json@).len(),
{
    match json.get("result") {
        Some(result) => match result.items_len() {
            Some(n) => n as u64,
            None => 0,
        },
        None => 0,
    }
}

/// Entry `index` of a reply's `result` array.
pub fn get_parsed_result_json(json: &Json, index: u64) -> (r: Option<ResultJson>)
    ensures
        symbol_view(r) == (if index < result_items(json@).len() {
            symbol_of(result_items(json@)[index as int])
        } else {
            None
        }),
{
    match json.get("result") {
        Some(result) => match result.items_len() {
            Some(n) => {
                if index >= n as u64 {
                    return None;
                }
                match result.at(index as usize) {
                    Some(item) => parse_entry(item),
                    None => None,
                }
            },
            None => None,
        },
        None => None,
    }
}

/// Which entries the caller wants to see.
#[derive(Debug)]
pub struct FilterConfig {
    /// Kind labels to keep; none, or `All` among them, keeps every kind.
    pub kinds: Vec<String>,
    /// A text the location must contain; empty keeps every location.
    pub filename: String,
    /// A text the name must contain.
    pub name_pattern: String,
}

pub struct FilterView {
    pub kinds: Seq<Seq<char>>,
    pub filename: Seq<char>,
    pub name_pattern: Seq<char>,
}

impl View for FilterConfig {
    type V = FilterView;

    open spec fn view(&self) -> FilterView {
        FilterView {
            kinds: self.kinds@.map_values(|k: String| k@),
            filename: self.filename@,
            name_pattern: self.name_pattern@,
        }
    }
}

/// The location lies in the toolchain or in the package cache.
pub open spec fn is_toolchain(uri: Seq<char>) -> bool {
    contains(uri, ".rustup"@) || contains(uri, ".cargo"@)
}

/// The kind filter keeps a label.
pub open spec fn kind_accepted(kinds: Seq<Seq<char>>, label: Seq<char>) -> bool {
    kinds.len() == 0 || kinds.contains("All"@) || kinds.contains(label)
}

/// An entry is shown: it is not in the toolchain, its kind is kept, its location
/// contains the file filter and its name contains the name filter.
pub open spec fn passes(f: FilterView, e: SymbolView) -> bool {
    &&& !is_toolchain(e.uri)
    &&& kind_accepted(f.kinds, kind_label(e.kind))
    &&& f.filename.len() == 0 || contains(e.uri, f.filename)
    &&& contains(e.name, f.name_pattern)
}

/// The location lies in the toolchain or in the package cache.
pub fn in_toolchain(uri: &str) -> (r: bool)
    ensures
        r == is_toolchain(uri@),
{
    contains_text(uri, ".rustup") || contains_text(uri, ".cargo")
}

/// The kind filter keeps a label.
pub fn accepts_kind(kinds: &Vec<String>, label: &str) -> (r: bool)
    ensures
        r == kind_accepted(kinds@.map_values(|k: String| k@), label@),
{
    let ghost ks = kinds@.map_values(|k: String| k@);
    if kinds.len() == 0 {
        return true;
    }
    let mut i: usize = 0;
    while i < kinds.len()
        invariant
            i <= kinds@.len(),
            ks == kinds@.map_values(|k: String| k@),
            forall|j: int| 0 <= j < i ==> ks[j] != "All"@ && ks[j] != label@,
        decreases kinds@.len() - i,
    {
        assert(ks[i as int] == kinds@[i as int]@);
        if same_text(kinds[i].as_str(), "All") || same_text(kinds[i].as_str(), label) {
            assert(ks.contains(ks[i as int]));
            return true;
        }
        i = i + 1;
    }
    assert(!ks.contains("All"@) && !ks.contains(label@)) by {
        if ks.contains("All"@) {
            let j = choose|j: int| 0 <= j < ks.len() && ks[j] == "All"@;
        }
        if ks.contains(label@) {
            let j = choose|j: int| 0 <= j < ks.len() && ks[j] == label@;
        }
    }
    false
}

/// Whether an entry is shown under a filter.
pub fn entry_passes(filter: &FilterConfig, entry: &ResultJson) -> (r: bool)
    ensures
        r == passes(filter@, entry@),
{
    if in_toolchain(entry.location.as_str()) {
        return false;
    }
    let label = get_symbol_type(entry.kind_int);
    if !accepts_kind(&filter.kinds, label.as_str()) {
        return false;
    }
    if filter.filename.as_str().unicode_len() != 0 && !contains_text(
        entry.location.as_str(),
        filter.filename.as_str(),
    ) {
        return false;
    }
    contains_text(entry.name.as_str(), filter.name_pattern.as_str())
}

/// The entries among `items` that read well and pass the filter, in order.
pub open spec fn selected_items(items: Seq<JsonTree>, f: FilterView) -> Seq<SymbolView>
    decreases items.len(),
{
    if items.len() == 0 {
        Seq::empty()
    } else {
        let rest = selected_items(items.drop_last(), f);
        match symbol_of(items.last()) {
            Some(e) => if passes(f, e) {
                rest.push(e)
            } else {
                rest
            },
            None => rest,
        }
    }
}

/// The entries of a symbol reply that are shown under a filter, in order.
pub open spec fn selected(reply: JsonTree, f: FilterView) -> Seq<SymbolView> {
    selected_items(result_items(reply), f)
}

pub open spec fn entries_view(v: Seq<ResultJson>) -> Seq<SymbolView> {
    v.map_values(|e: ResultJson| e@)
}

/// The entries of a symbol reply that are shown under a filter, in order.
pub fn select_entries(reply: &Json, filter: &FilterConfig) -> (r: Vec<ResultJson>)
    ensures
        entries_view(r@) == selected(reply@, filter@),
{
    let n = get_response_array_length(reply);
    let ghost items = result_items(reply@);
    let mut out: Vec<ResultJson> = Vec::new();
    let mut i: u64 = 0;
    while i < n
        invariant
            n == items.len(),
            items == result_items(reply@),
            i <= n,
            entries_view(out@) == selected_items(items.subrange(0, i as int), filter@),
        decreases n - i,
    {
        let ghost before = out@;
        assert(items.subrange(0, i + 1).drop_last() =~= items.subrange(0, i as int));
        assert(items.subrange(0, i + 1).last() == items[i as int]);
        match get_parsed_result_json(reply, i) {
            Some(e) => {
                if entry_passes(filter, &e) {
                    out.push(e);
                    assert(entries_view(out@) =~= entries_view(before).push(e@));
                }
            },
            None => {},
        }
        i = i + 1;
    }
    assert(items.subrange(0, n as int) =~= items);
    out
}

/// A row as it is handed to the renderer.
#[derive(Debug)]
pub struct ResolvedRow {
    pub name: String,
    /// The kind label.
    pub kind: String,
    /// The type found by a hover lookup, or the kind label.
    pub description: String,
    pub line: u32,
    /// The location without its `file://` scheme.
    pub location: String,
}

pub struct RowView {
    pub name: Seq<char>,
    pub kind: Seq<char>,
    pub description: Seq<char>,
    pub line: u32,
    pub location: Seq<char>,
}

impl View for ResolvedRow {
    type V = RowView;

    open spec fn view(&self) -> RowView {
        RowView {
            name: self.name@,
            kind: self.kind@,
            description: self.description@,
            line: self.line,
            location: self.location@,
        }
    }
}

/// The row for an entry with its description.
pub open spec fn row_of(e: SymbolView, description: Seq<char>) -> RowView {
    RowView {
        name: e.name,
        kind: kind_label(e.kind),
        description,
        line: e.line,
        location: shown_location(e.uri),
    }
}

/// The row for an entry with its description.
pub fn resolve_row(entry: &ResultJson, description: String) -> (r: ResolvedRow)
    ensures
        r@ == row_of(entry@, description@),
{
    ResolvedRow {
        name: entry.name.clone(),
        kind: get_symbol_type(entry.kind_int),
        description,
        line: entry.line,
        location: strip_scheme(entry.location.as_str()),
    }
}

/// The node `result.contents[0].value` of a hover reply.
pub open spec fn hover_value(reply: JsonTree) -> Option<JsonTree> {
    member_of(element_of(member_of(member(reply, "result"@), "contents"@), 0), "value"@)
}

/// The type description a hover reply gives: the text of `result.contents[0].value`;
/// any other value as its JSON text, and `null` where there is none.
pub open spec fn hover_description(reply: JsonTree) -> Seq<char> {
    match hover_value(reply) {
        Some(JsonTree::Text(s)) => s,
        Some(v) => json_dump(v),
        None => json_dump(JsonTree::Null),
    }
}

/// The type description a hover reply gives.
pub fn hover_text(reply: &Json) -> (r: String)
    ensures
        r@ == hover_description(reply@),
{
    let contents = member_ref(reply.get("result"), "contents");
    let first = match contents {
        Some(c) => c.at(0),
        None => None,
    };
    match member_ref(first, "value") {
        Some(v) => match v.as_text() {
            Some(s) => s.to_owned(),
            None => dump_json(v),
        },
        None => dump_json(&Json::Null),
    }
}

/// A kind filter that names neither `All` nor an entry's kind label leaves the entry out.
pub proof fn lemma_kind_filter_excludes(f: FilterView, e: SymbolView)
    requires
        f.kinds.len() > 0,
        !f.kinds.contains("All"@),
        !f.kinds.contains(kind_label(e.kind)),
    ensures
        !passes(f, e),
{
}

/// With no kind filter, or with `All` in it, the kind of an entry plays no part: it is
/// shown exactly when it lies outside the toolchain and matches the file and name filters.
pub proof fn lemma_all_kinds_pass(f: FilterView, e: SymbolView)
    requires
        f.kinds.len() == 0 || f.kinds.contains("All"@),
    ensures
        passes(f, e) == (!is_toolchain(e.uri) && (f.filename.len() == 0 || contains(
            e.uri,
            f.filename,
        )) && contains(e.name, f.name_pattern)),
{
}

/// An entry located in the toolchain (`.rustup`) or the package cache (`.cargo`) is
/// never shown, whatever the filter.
pub proof fn lemma_toolchain_excluded(f: FilterView, e: SymbolView)
    requires
        contains(e.uri, ".rustup"@) || contains(e.uri, ".cargo"@),
    ensures
        !passes(f, e),
{
}

} // verus!
