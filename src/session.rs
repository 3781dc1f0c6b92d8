use vstd::prelude::*;
use crate::json::{member, Json, JsonTree};
use crate::requests::{
    hover, hover_request_tree, init_notification, init_notification_tree, init_request,
    init_request_tree, symbol_request, symbol_request_tree, wire_text, HOVER_REQUEST_ID,
    INIT_REQUEST_ID, SYMBOL_REQUEST_ID,
};
use crate::results::{
    entries_view, get_symbol_type, hover_description, hover_text, kind_label, resolve_row,
    row_of, select_entries, selected, FilterConfig, FilterView, ResolvedRow, ResultJson,
    RowView, SymbolView, VARIABLE_KIND,
};

verus! {

/// Where a run of the protocol stands.
#[derive(PartialEq, Eq, Structural, Clone, Copy, Debug)]
pub enum Phase {
    /// Nothing sent yet.
    Start,
    /// The `initialize` request is out.
    AwaitingInit,
    /// A `workspace/symbol` request is out.
    AwaitingSymbols,
    /// A hover request is out for the entry being resolved.
    Enriching,
    /// Every row is resolved.
    Done,
}

/// What the caller does next.
pub enum Action {
    /// Write these frames to the server in order, then wait for the reply with this
    /// id and hand it to `on_reply`.
    Exchange(Vec<String>, u32),
    /// The run is over; the rows are ready.
    Finished,
}

pub enum ActionView {
    Exchange(Seq<Seq<char>>, u32),
    Finished,
}

impl View for Action {
    type V = ActionView;

    open spec fn view(&self) -> ActionView {
        match self {
            Action::Exchange(frames, id) => ActionView::Exchange(
                frames@.map_values(|f: String| f@),
                *id,
            ),
            Action::Finished => ActionView::Finished,
        }
    }
}

/// One run of the protocol: `initialize`, `initialized`, the symbol query (sent again
/// while it comes back empty, up to a bound), then a hover lookup for each entry of
/// kind `Variable`.
pub struct Session {
    query: String,
    filter: FilterConfig,
    max_attempts: u32,
    attempts: u32,
    phase: Phase,
    entries: Vec<ResultJson>,
    next: usize,
    rows: Vec<ResolvedRow>,
    gave_up: bool,
}

pub struct SessionView {
    pub query: Seq<char>,
    pub filter: FilterView,
    /// The most symbol queries that are sent.
    pub max_attempts: u32,
    /// The symbol queries sent so far.
    pub attempts: u32,
    pub phase: Phase,
    /// The entries of the symbol reply that pass the filter.
    pub entries: Seq<SymbolView>,
    /// The entry being resolved.
    pub next: int,
    /// The rows resolved so far, in the order of the entries.
    pub rows: Seq<RowView>,
    /// The symbol reply was still empty when the attempts ran out.
    pub gave_up: bool,
}

impl View for Session {
    type V = SessionView;

    closed spec fn view(&self) -> SessionView {
        SessionView {
            query: self.query@,
            filter: self.filter@,
            max_attempts: self.max_attempts,
            attempts: self.attempts,
            phase: self.phase,
            entries: entries_view(self.entries@),
            next: self.next as int,
            rows: self.rows@.map_values(|r: ResolvedRow| r@),
            gave_up: self.gave_up,
        }
    }
}

/// The reply's `result` is an empty array.
pub open spec fn is_empty_result(reply: JsonTree) -> bool {
    member(reply, "result"@) == Some(JsonTree::Array(Seq::empty()))
}

/// The reply's `result` is an empty array.
pub fn empty_result(reply: &Json) -> (r: bool)
    ensures
        r == is_empty_result(reply@),
{
    match reply.get("result") {
        Some(result) => match result.items_len() {
            Some(n) => {
                if n == 0 {
                    assert(member(reply@, "result"@)->0->Array_0 =~= Seq::<JsonTree>::empty());
                }
                n == 0
            },
            None => false,
        },
        None => false,
    }
}

/// The frame of the hover request for an entry.
pub open spec fn hover_frame(e: SymbolView) -> Seq<char> {
    wire_text(hover_request_tree(e.uri, e.line, e.character))
}

/// Resolves entries from `s.next` on: an entry of kind `Variable` stops the walk with
/// its hover request; any other takes its kind label as its description.
pub open spec fn advance(s: SessionView) -> (SessionView, ActionView)
    decreases s.entries.len() - s.next,
{
    if 0 <= s.next < s.entries.len() {
        let e = s.entries[s.next];
        if e.kind == VARIABLE_KIND {
            (
                SessionView { phase: Phase::Enriching, ..s },
                ActionView::Exchange(seq![hover_frame(e)], HOVER_REQUEST_ID),
            )
        } else {
            advance(
                SessionView {
                    rows: s.rows.push(row_of(e, kind_label(e.kind))),
                    next: s.next + 1,
                    ..s
                },
            )
        }
    } else {
        (SessionView { phase: Phase::Done, ..s }, ActionView::Finished)
    }
}

/// What the session does with a reply.
pub open spec fn reply_step(s: SessionView, reply: JsonTree) -> (SessionView, ActionView) {
    match s.phase {
        Phase::AwaitingInit => (
            SessionView { phase: Phase::AwaitingSymbols, attempts: 1, ..s },
            ActionView::Exchange(
                seq![
                    wire_text(init_notification_tree()),
                    wire_text(symbol_request_tree(s.query)),
                ],
                SYMBOL_REQUEST_ID,
            ),
        ),
        Phase::AwaitingSymbols => if is_empty_result(reply) && s.attempts < s.max_attempts {
            (
                SessionView { attempts: (s.attempts + 1) as u32, ..s },
                ActionView::Exchange(
                    seq![wire_text(symbol_request_tree(s.query))],
                    SYMBOL_REQUEST_ID,
                ),
            )
        } else {
            advance(
                SessionView {
                    phase: Phase::Enriching,
                    entries: selected(reply, s.filter),
                    next: 0,
                    rows: Seq::empty(),
                    gave_up: is_empty_result(reply),
                    ..s
                },
            )
        },
        Phase::Enriching => if 0 <= s.next < s.entries.len() {
            advance(
                SessionView {
                    rows: s.rows.push(row_of(s.entries[s.next], hover_description(reply))),
                    next: s.next + 1,
                    ..s
                },
            )
        } else {
            (SessionView { phase: Phase::Done, ..s }, ActionView::Finished)
        },
        _ => (s, ActionView::Finished),
    }
}

pub open spec fn rows_view(rows: Seq<ResolvedRow>) -> Seq<RowView> {
    rows.map_values(|r: ResolvedRow| r@)
}

impl Session {
    /// A run that looks for `query`, shows what passes `filter`, and sends the symbol
    /// query at most `max_attempts` times while it comes back empty.
    pub fn new(query: &str, filter: FilterConfig, max_attempts: u32) -> (r: Session)
        ensures
            r@ == (SessionView {
                query: query@,
                filter: filter@,
                max_attempts,
                attempts: 0,
                phase: Phase::Start,
                entries: Seq::empty(),
                next: 0,
                rows: Seq::empty(),
                gave_up: false,
            }),
    {
        let r = Session {
            query: query.to_owned(),
            filter,
            max_attempts,
            attempts: 0,
            phase: Phase::Start,
            entries: Vec::new(),
            next: 0,
            rows: Vec::new(),
            gave_up: false,
        };
        assert(r@.entries =~= Seq::<SymbolView>::empty());
        assert(r@.rows =~= Seq::<RowView>::empty());
        r
    }

    /// Opens the run: the `initialize` request for this process and project root.
    pub fn start(&mut self, process_id: u32, root_path: &str) -> (r: Action)
        ensures
            old(self)@.phase == Phase::Start ==> final(self)@ == (SessionView {
                phase: Phase::AwaitingInit,
                ..old(self)@
            }) && r@ == ActionView::Exchange(
                seq![wire_text(init_request_tree(process_id, root_path@))],
                INIT_REQUEST_ID,
            ),
            old(self)@.phase != Phase::Start ==> final(self)@ == old(self)@ && r@
                == ActionView::Finished,
    {
        if self.phase != Phase::Start {
            return Action::Finished;
        }
        self.phase = Phase::AwaitingInit;
        let frames = vec![init_request(process_id, root_path)];
        assert(frames@.map_values(|f: String| f@) =~= seq![
            wire_text(init_request_tree(process_id, root_path@)),
        ]);
        Action::Exchange(frames, INIT_REQUEST_ID)
    }

    fn advance_entries(&mut self) -> (r: Action)
        ensures
            (final(self)@, r@) == advance(old(self)@),
    {
        loop
            invariant
                advance(self@) == advance(old(self)@),
            decreases self.entries@.len() - self.next,
        {
            if self.next < self.entries.len() {
                let kind = self.entries[self.next].kind_int;
                if kind == VARIABLE_KIND {
                    self.phase = Phase::Enriching;
                    let e = &self.entries[self.next];
                    let frames = vec![hover(e.location.as_str(), e.line, e.character)];
                    assert(frames@.map_values(|f: String| f@) =~= seq![
                        hover_frame(self@.entries[self@.next]),
                    ]);
                    return Action::Exchange(frames, HOVER_REQUEST_ID);
                } else {
                    let ghost before = self@;
                    let row = resolve_row(&self.entries[self.next], get_symbol_type(kind));
                    let ghost rows = self.rows@;
                    self.rows.push(row);
                    self.next = self.next + 1;
                    assert(rows_view(self.rows@) =~= rows_view(rows).push(row@));
                    assert(self@ == SessionView {
                        rows: before.rows.push(
                            row_of(before.entries[before.next], kind_label(kind)),
                        ),
                        next: before.next + 1,
                        ..before
                    });
                }
            } else {
                self.phase = Phase::Done;
                return Action::Finished;
            }
        }
    }

    /// Takes the reply to the request that the last action sent.
    pub fn on_reply(&mut self, reply: &Json) -> (r: Action)
        ensures
            (final(self)@, r@) == reply_step(old(self)@, reply@),
    {
        match self.phase {
            Phase::AwaitingInit => {
                self.phase = Phase::AwaitingSymbols;
                self.attempts = 1;
                let frames = vec![init_notification(), symbol_request(self.query.as_str())];
                assert(frames@.map_values(|f: String| f@) =~= seq![
                    wire_text(init_notification_tree()),
                    wire_text(symbol_request_tree(self@.query)),
                ]);
                Action::Exchange(frames, SYMBOL_REQUEST_ID)
            },
            Phase::AwaitingSymbols => {
                let empty = empty_result(reply);
                if empty && self.attempts < self.max_attempts {
                    self.attempts = self.attempts + 1;
                    let frames = vec![symbol_request(self.query.as_str())];
                    assert(frames@.map_values(|f: String| f@) =~= seq![
                        wire_text(symbol_request_tree(self@.query)),
                    ]);
                    Action::Exchange(frames, SYMBOL_REQUEST_ID)
                } else {
                    self.entries = select_entries(reply, &self.filter);
                    self.next = 0;
                    self.rows = Vec::new();
                    self.gave_up = empty;
                    self.phase = Phase::Enriching;
                    assert(rows_view(self.rows@) =~= Seq::<RowView>::empty());
                    self.advance_entries()
                }
            },
            Phase::Enriching => {
                if self.next < self.entries.len() {
                    let row = resolve_row(&self.entries[self.next], hover_text(reply));
                    let ghost rows = self.rows@;
                    self.rows.push(row);
                    self.next = self.next + 1;
                    assert(rows_view(self.rows@) =~= rows_view(rows).push(row@));
                    self.advance_entries()
                } else {
                    self.phase = Phase::Done;
                    Action::Finished
                }
            },
            _ => Action::Finished,
        }
    }

    /// The rows resolved so far.
    pub fn rows(&self) -> (r: &Vec<ResolvedRow>)
        ensures
            rows_view(r@) == self@.rows,
    {
        &self.rows
    }

    /// The symbol query was still empty when the attempts ran out.
    pub fn gave_up(&self) -> (r: bool)
        ensures
            r == self@.gave_up,
    {
        self.gave_up
    }

    /// The number of symbol queries sent so far.
    pub fn symbol_attempts(&self) -> (r: u32)
        ensures
            r == self@.attempts,
    {
        self.attempts
    }

    /// Where the run stands.
    pub fn phase(&self) -> (r: Phase)
        ensures
            r == self@.phase,
    {
        self.phase
    }
}

/// The session answering a sequence of replies: its state at the end and the action
/// it took after each reply.
pub open spec fn run(s: SessionView, replies: Seq<JsonTree>) -> (SessionView, Seq<ActionView>)
    decreases replies.len(),
{
    if replies.len() == 0 {
        (s, Seq::empty())
    } else {
        let (s1, a) = reply_step(s, replies[0]);
        let (s2, acts) = run(s1, replies.drop_first());
        (s2, seq![a] + acts)
    }
}

/// Resolving entries keeps the query, the filter, the entries and the counters; it
/// only adds rows, and it stops either at a single hover request or at the end.
pub proof fn lemma_advance(s: SessionView)
    ensures
        advance(s).0.query == s.query,
        advance(s).0.filter == s.filter,
        advance(s).0.max_attempts == s.max_attempts,
        advance(s).0.attempts == s.attempts,
        advance(s).0.entries == s.entries,
        advance(s).0.gave_up == s.gave_up,
        advance(s).0.rows.len() >= s.rows.len(),
        advance(s).0.rows.subrange(0, s.rows.len() as int) == s.rows,
        advance(s).1 is Finished || (advance(s).1 matches ActionView::Exchange(frames, id)
            && frames.len() == 1 && id == HOVER_REQUEST_ID),
    decreases s.entries.len() - s.next,
{
    if 0 <= s.next < s.entries.len() {
        let e = s.entries[s.next];
        if e.kind == VARIABLE_KIND {
            assert(s.rows.subrange(0, s.rows.len() as int) =~= s.rows);
        } else {
            let s1 = SessionView {
                rows: s.rows.push(row_of(e, kind_label(e.kind))),
                next: s.next + 1,
                ..s
            };
            lemma_advance(s1);
            assert(advance(s).0.rows.subrange(0, s.rows.len() as int) =~= advance(
                s1,
            ).0.rows.subrange(0, s1.rows.len() as int).subrange(0, s.rows.len() as int));
            assert(s1.rows.subrange(0, s.rows.len() as int) =~= s.rows);
        }
    } else {
        assert(s.rows.subrange(0, s.rows.len() as int) =~= s.rows);
    }
}

proof fn lemma_symbol_phase(s: SessionView, replies: Seq<JsonTree>)
    requires
        s.phase == Phase::AwaitingSymbols,
        replies.len() >= 1,
        s.attempts + replies.len() - 1 <= s.max_attempts,
        forall|i: int| 0 <= i < replies.len() - 1 ==> is_empty_result(#[trigger] replies[i]),
        !is_empty_result(replies.last()),
    ensures
        run(s, replies).1.len() == replies.len(),
        forall|i: int|
            0 <= i < replies.len() - 1 ==> #[trigger] run(s, replies).1[i] == ActionView::Exchange(
                seq![wire_text(symbol_request_tree(s.query))],
                SYMBOL_REQUEST_ID,
            ),
        run(s, replies).1.last() is Finished || run(s, replies).1.last()->Exchange_1
            == HOVER_REQUEST_ID,
        run(s, replies).0.attempts == s.attempts + replies.len() - 1,
        run(s, replies).0.entries == selected(replies.last(), s.filter),
        !run(s, replies).0.gave_up,
    decreases replies.len(),
{
    let r0 = replies[0];
    let rest = replies.drop_first();
    if replies.len() == 1 {
        let s1 = SessionView {
            phase: Phase::Enriching,
            entries: selected(r0, s.filter),
            next: 0,
            rows: Seq::empty(),
            gave_up: is_empty_result(r0),
            ..s
        };
        lemma_advance(s1);
        assert(replies.last() == r0);
        assert(reply_step(s, r0) == advance(s1));
        assert(rest =~= Seq::<JsonTree>::empty());
        assert(run(advance(s1).0, rest) == (advance(s1).0, Seq::<ActionView>::empty()));
        assert(run(s, replies).0 == advance(s1).0);
        assert(run(s, replies).1 =~= seq![advance(s1).1]);
    } else {
        assert(is_empty_result(replies[0]));
        let s1 = SessionView { attempts: (s.attempts + 1) as u32, ..s };
        assert forall|i: int| 0 <= i < rest.len() - 1 implies is_empty_result(
            #[trigger] rest[i],
        ) by {
            assert(rest[i] == replies[i + 1]);
        }
        lemma_symbol_phase(s1, rest);
        assert(reply_step(s, r0) == (
            s1,
            ActionView::Exchange(seq![wire_text(symbol_request_tree(s.query))], SYMBOL_REQUEST_ID),
        ));
        assert(run(s, replies).0 == run(s1, rest).0);
        assert(rest.last() == replies.last());
        let acts = run(s, replies).1;
        assert(acts =~= seq![
            ActionView::Exchange(seq![wire_text(symbol_request_tree(s.query))], SYMBOL_REQUEST_ID),
        ] + run(s1, rest).1);
        assert forall|i: int| 0 <= i < replies.len() - 1 implies #[trigger] acts[i]
            == ActionView::Exchange(
            seq![wire_text(symbol_request_tree(s.query))],
            SYMBOL_REQUEST_ID,
        ) by {
            if i > 0 {
                assert(acts[i] == run(s1, rest).1[i - 1]);
            }
        }
        assert(acts.last() == run(s1, rest).1.last());
    }
}

/// Empty-result retry: once `initialize` is answered, a server that answers the symbol
/// query with an empty result `n` times and then with a non-empty one, within the bound
/// on attempts, is sent exactly `n + 1` symbol queries (the first with the
/// `initialized` notification), and the run goes on with that last reply.
pub proof fn lemma_retry_until_results(
    s: SessionView,
    init_reply: JsonTree,
    replies: Seq<JsonTree>,
)
    requires
        s.phase == Phase::AwaitingInit,
        1 <= replies.len() <= s.max_attempts,
        forall|i: int| 0 <= i < replies.len() - 1 ==> is_empty_result(#[trigger] replies[i]),
        !is_empty_result(replies.last()),
    ensures
        run(s, seq![init_reply] + replies).1.len() == replies.len() + 1,
        run(s, seq![init_reply] + replies).1[0] == ActionView::Exchange(
            seq![wire_text(init_notification_tree()), wire_text(symbol_request_tree(s.query))],
            SYMBOL_REQUEST_ID,
        ),
        forall|i: int|
            1 <= i < replies.len() ==> #[trigger] run(s, seq![init_reply] + replies).1[i]
                == ActionView::Exchange(
                seq![wire_text(symbol_request_tree(s.query))],
                SYMBOL_REQUEST_ID,
            ),
        run(s, seq![init_reply] + replies).1.last() is Finished || run(
            s,
            seq![init_reply] + replies,
        ).1.last()->Exchange_1 == HOVER_REQUEST_ID,
        run(s, seq![init_reply] + replies).0.attempts == replies.len(),
        run(s, seq![init_reply] + replies).0.entries == selected(replies.last(), s.filter),
        !run(s, seq![init_reply] + replies).0.gave_up,
{
    let all = seq![init_reply] + replies;
    let s1 = SessionView { phase: Phase::AwaitingSymbols, attempts: 1, ..s };
    assert(all[0] == init_reply);
    assert(all.drop_first() =~= replies);
    lemma_symbol_phase(s1, replies);
    let acts = run(s, all).1;
    assert forall|i: int| 1 <= i < replies.len() implies #[trigger] acts[i]
        == ActionView::Exchange(seq![wire_text(symbol_request_tree(s.query))], SYMBOL_REQUEST_ID) by {
        assert(acts[i] == run(s1, replies).1[i - 1]);
    }
    assert(acts.last() == run(s1, replies).1.last());
}

/// Variable enrichment: an entry of kind `Variable` next in line makes the session
/// send exactly one request, the hover request for that entry's position, and leaves
/// the entry unresolved until the reply; the reply resolves it with the reply's
/// `result.contents[0].value` as its description.
pub proof fn lemma_variable_enrichment(s: SessionView, hover_reply: JsonTree)
    requires
        0 <= s.next < s.entries.len(),
        s.entries[s.next].kind == VARIABLE_KIND,
    ensures
        advance(s).1 == ActionView::Exchange(
            seq![hover_frame(s.entries[s.next])],
            HOVER_REQUEST_ID,
        ),
        advance(s).0 == (SessionView { phase: Phase::Enriching, ..s }),
        reply_step(advance(s).0, hover_reply).0.rows.len() > s.rows.len(),
        reply_step(advance(s).0, hover_reply).0.rows.subrange(0, s.rows.len() as int) == s.rows,
        reply_step(advance(s).0, hover_reply).0.rows[s.rows.len() as int] == row_of(
            s.entries[s.next],
            hover_description(hover_reply),
        ),
        row_of(s.entries[s.next], hover_description(hover_reply)).description == hover_description(
            hover_reply,
        ),
{
    let e = s.entries[s.next];
    let s1 = SessionView { phase: Phase::Enriching, ..s };
    let s2 = SessionView {
        rows: s1.rows.push(row_of(e, hover_description(hover_reply))),
        next: s1.next + 1,
        ..s1
    };
    lemma_advance(s2);
    let rows = advance(s2).0.rows;
    assert(rows.subrange(0, s2.rows.len() as int) == s2.rows);
    assert(rows[s.rows.len() as int] == rows.subrange(0, s2.rows.len() as int)[s.rows.len() as int]);
    assert(rows.subrange(0, s.rows.len() as int) =~= s2.rows.subrange(0, s.rows.len() as int));
    assert(s2.rows.subrange(0, s.rows.len() as int) =~= s.rows);
}

} // verus!
