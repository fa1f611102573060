//! The state behind the screen: the events, the filters, the rows that are shown
//! and the one that is selected.
use crate::event;
use crate::event::{Ev, EvView};
use crate::gh;
use crate::gh::{fetch_commits_reply, fetch_commits_request, Reply, ReplyView};
use crate::layout::Rect;
use crate::text;
use crate::text::{contains, split_words};
use vstd::prelude::*;
use vstd::string::*;

verus! {

// ---------------------------------------------------------------------------
// The state
// ---------------------------------------------------------------------------

/// How many filters there are: one on everything, and one for each column of
/// text.
pub const FILTERS: usize = 5;

/// Which row of the table is selected, and which one is the first on the screen.
#[derive(Clone, Copy, PartialEq, Eq, Structural, Debug)]
pub struct TableState {
    pub selected: Option<usize>,
    pub offset: usize,
}

impl TableState {
    /// The state with another selection. Without one the table starts at its top.
    pub open spec fn with(self, index: Option<usize>) -> TableState {
        TableState {
            selected: index,
            offset: if index is None {
                0
            } else {
                self.offset
            },
        }
    }

    /// Selects a row, or none.
    pub fn select(&mut self, index: Option<usize>)
        ensures
            *final(self) == old(self).with(index),
    {
        self.selected = index;
        if index.is_none() {
            self.offset = 0;
        }
    }

    /// The selected row, if there is one.
    pub fn selected(&self) -> (r: Option<usize>)
        ensures
            r == self.selected,
    {
        self.selected
    }
}

/// A row of the table.
#[derive(Clone, Copy, PartialEq, Eq, Structural, Debug)]
pub enum Row {
    /// The event with the given index.
    Event(usize),
    /// A commit of an expanded push: the index of the event, then of the commit.
    Commit(usize, usize),
}

impl Row {
    /// The event that a row belongs to.
    pub open spec fn event(self) -> usize {
        match self {
            Row::Event(i) => i,
            Row::Commit(i, _) => i,
        }
    }

    /// The index of the event that a row belongs to.
    pub fn event_index(&self) -> (r: usize)
        ensures
            r == self.event(),
    {
        match *self {
            Row::Event(i) => i,
            Row::Commit(i, _) => i,
        }
    }
}

/// What there is to do outside after an input.
pub enum Action {
    /// Nothing.
    Stay,
    /// To end the program.
    Quit,
    /// To put a text on the clipboard, and to say by [`App::copied`] how that went.
    Copy(String),
    /// To call `gh` with the arguments, and to hand the reply to
    /// [`App::toggle_expand_reply`] for the event.
    Fetch { event: usize, args: Vec<String> },
    /// To call `gh` with the arguments, without waiting for it.
    Open(Vec<String>),
}

/// What an action holds.
pub enum ActionView {
    Stay,
    Quit,
    Copy(Seq<char>),
    Fetch { event: usize, args: Seq<Seq<char>> },
    Open(Seq<Seq<char>>),
}

impl View for Action {
    type V = ActionView;

    open spec fn view(&self) -> ActionView {
        match *self {
            Action::Stay => ActionView::Stay,
            Action::Quit => ActionView::Quit,
            Action::Copy(t) => ActionView::Copy(t@),
            Action::Fetch { event, args } => ActionView::Fetch { event, args: text::texts(args@) },
            Action::Open(args) => ActionView::Open(text::texts(args@)),
        }
    }
}

/// The state of the program.
pub struct App {
    pub repo: String,
    pub host: Option<String>,
    pub events: Vec<Ev>,
    /// The filters: on everything, then on the date, the type, the actor and the
    /// detail.
    pub filters: [String; FILTERS],
    /// The filter that typing edits.
    pub active: usize,
    /// The widths of the columns: the arrow, the date, the type and the actor. The
    /// last, that of the detail, takes what is left.
    pub col_w: [u16; 5],
    pub state: TableState,
    /// Where the table was last drawn.
    pub table_area: Rect,
    /// Where the bars of the chart were last drawn.
    pub spark_area: Rect,
    /// The day of each bar.
    pub spark_days: Vec<String>,
    /// The column that is being resized, and where it begins.
    pub drag: Option<(usize, u16)>,
    /// When a row was last clicked, in nanoseconds, and which.
    pub last_click: Option<(u64, usize)>,
    /// A message for the footer.
    pub status: Option<String>,
}

/// What the state holds.
#[verifier::ext_equal]
pub struct AppView {
    pub repo: Seq<char>,
    pub host: Option<Seq<char>>,
    pub events: Seq<EvView>,
    pub filters: Seq<Seq<char>>,
    pub active: usize,
    pub col_w: Seq<u16>,
    pub state: TableState,
    pub table_area: Rect,
    pub spark_area: Rect,
    pub spark_days: Seq<Seq<char>>,
    pub drag: Option<(usize, u16)>,
    pub last_click: Option<(u64, usize)>,
    pub status: Option<Seq<char>>,
}

impl View for App {
    type V = AppView;

    open spec fn view(&self) -> AppView {
        AppView {
            repo: self.repo@,
            host: text::opt_text(self.host),
            events: event::views(self.events@),
            filters: text::texts(self.filters@),
            active: self.active,
            col_w: self.col_w@,
            state: self.state,
            table_area: self.table_area,
            spark_area: self.spark_area,
            spark_days: text::texts(self.spark_days@),
            drag: self.drag,
            last_click: self.last_click,
            status: text::opt_text(self.status),
        }
    }
}

// ---------------------------------------------------------------------------
// Filtering
// ---------------------------------------------------------------------------

/// The words of a filter in lower case.
pub open spec fn needles(filter: Seq<char>) -> Seq<Seq<char>> {
    text::words(filter).map_values(|w: Seq<char>| text::lower(w))
}

/// Every one of `words` stands somewhere in `hay`.
pub open spec fn has_all(hay: Seq<char>, words: Seq<Seq<char>>) -> bool {
    forall|k: int| 0 <= k < words.len() ==> text::occurs(hay, #[trigger] words[k])
}

/// What the filter with the given index searches: the first one the event's
/// search text, the others the column in lower case.
pub open spec fn haystack(e: EvView, col: int) -> Seq<char> {
    if col == 0 {
        e.search
    } else {
        text::lower(e.column(col))
    }
}

/// An event is shown when all words of every filter stand in what that filter
/// searches. A filter without words shows everything.
pub open spec fn shows(e: EvView, filters: Seq<Seq<char>>) -> bool {
    forall|col: int|
        0 <= col < filters.len() ==> has_all(haystack(e, col), needles(#[trigger] filters[col]))
}

/// The indices of those of the first `n` events that are shown, ascending.
pub open spec fn matching_upto(events: Seq<EvView>, filters: Seq<Seq<char>>, n: int) -> Seq<usize>
    decreases n,
{
    if n <= 0 {
        seq![]
    } else if shows(events[n - 1], filters) {
        matching_upto(events, filters, n - 1).push((n - 1) as usize)
    } else {
        matching_upto(events, filters, n - 1)
    }
}

/// The row of an event, and those of its commits where it is expanded.
pub open spec fn rows_of(e: EvView, i: usize) -> Seq<Row> {
    seq![Row::Event(i)] + if e.expanded && e.commits is Some {
        Seq::new(e.commits->0.len(), |c: int| Row::Commit(i, c as usize))
    } else {
        seq![]
    }
}

/// The rows of the events with the given indices, in order.
pub open spec fn splice(events: Seq<EvView>, idx: Seq<usize>) -> Seq<Row>
    decreases idx.len(),
{
    if idx.len() == 0 {
        seq![]
    } else {
        splice(events, idx.drop_last()) + rows_of(events[idx.last() as int], idx.last())
    }
}

/// `n` moved into the range from `lo` to `hi`.
pub open spec fn clamped(n: int, lo: int, hi: int) -> int {
    if n < lo {
        lo
    } else if n > hi {
        hi
    } else {
        n
    }
}

impl AppView {
    /// The indices of the events that are shown, ascending.
    pub open spec fn matching(self) -> Seq<usize> {
        matching_upto(self.events, self.filters, self.events.len() as int)
    }

    /// The rows of the table.
    pub open spec fn rows(self) -> Seq<Row> {
        splice(self.events, self.matching())
    }

    /// The selected row; none where nothing is selected, or no such row is there.
    pub open spec fn selected_row(self) -> Option<Row> {
        match self.state.selected {
            Some(k) => if k < self.rows().len() {
                Some(self.rows()[k as int])
            } else {
                None
            },
            None => None,
        }
    }

    /// What typing edits is a filter, and what is being resized is a column.
    pub open spec fn wf(self) -> bool {
        &&& self.filters.len() == FILTERS
        &&& self.col_w.len() == 5
        &&& self.active < FILTERS
        &&& self.drag matches Some((c, _)) ==> c < 5
    }

    /// The state with another selection.
    pub open spec fn select(self, index: Option<usize>) -> AppView {
        AppView { state: self.state.with(index), ..self }
    }

    /// The state with the first row selected, or none where there are no rows.
    pub open spec fn reset(self) -> AppView {
        self.select(
            if self.rows().len() > 0 {
                Some(0)
            } else {
                None
            },
        )
    }

    /// The state with the selection moved by `delta` rows of `len`, as far as
    /// there are rows. Without a selection it moves from the first row.
    pub open spec fn moved(self, delta: int, len: nat) -> AppView {
        if len == 0 {
            self.select(None)
        } else {
            let from = match self.state.selected {
                Some(k) => k as int,
                None => 0,
            };
            self.select(Some(clamped(from + delta, 0, len - 1) as usize))
        }
    }

    /// The state with another event in the place of the one with index `i`.
    pub open spec fn with_event(self, i: int, e: EvView) -> AppView {
        AppView { events: self.events.update(i, e), ..self }
    }

    /// Expanding or collapsing an event. An event that is no push stays as it is.
    /// Where the commits are not known yet, they have to be fetched first.
    pub open spec fn toggle(self, i: int) -> (AppView, ActionView) {
        let e = self.events[i];
        if !e.can_expand() {
            (self, ActionView::Stay)
        } else if e.commits is None {
            (
                self,
                ActionView::Fetch {
                    event: i as usize,
                    args: gh::compare_args(self.host, self.repo, e.before, e.after),
                },
            )
        } else {
            (self.with_event(i, EvView { expanded: !e.expanded, ..e }), ActionView::Stay)
        }
    }

    /// Expanding or collapsing an event whose commits have been fetched. A count
    /// that the reply gives replaces what was known.
    pub open spec fn toggle_fetched(self, i: int, reply: ReplyView) -> AppView {
        let e = self.events[i];
        let (rows, total) = gh::compared(reply);
        self.with_event(
            i,
            EvView {
                commits: Some(rows),
                commit_count: match total {
                    Some(n) => Some(n as usize),
                    None => e.commit_count,
                },
                expanded: !e.expanded,
                ..e
            },
        )
    }

    /// Where column `c` begins: behind the columns before it, each with a gap of
    /// one cell.
    pub open spec fn column_left(self, c: int) -> int
        decreases c,
    {
        if c <= 0 {
            self.table_area.x as int
        } else {
            self.column_left(c - 1) + self.col_w[c - 1] + 1
        }
    }

    /// The first cell of column `c`, and the one past its last. The column of the
    /// detail ends with the table, and begins there where nothing is left for it.
    pub open spec fn span(self, c: int) -> (int, int) {
        if c < 4 {
            (self.column_left(c), self.column_left(c) + self.col_w[c])
        } else {
            (
                if self.column_left(4) <= self.table_area.right() {
                    self.column_left(4)
                } else {
                    self.table_area.right()
                },
                self.table_area.right(),
            )
        }
    }

    /// The columns begin and end where a cell's coordinates can.
    pub open spec fn spans_fit(self) -> bool {
        &&& self.column_left(4) <= u16::MAX
        &&& self.table_area.right() <= u16::MAX
    }
}

/// The columns begin and end where a cell's coordinates can, with the table in
/// the given area.
pub open spec fn columns_fit_in(app: AppView, area: Rect) -> bool {
    AppView { table_area: area, ..app }.spans_fit()
}

/// The state at the start: no filter but the one on everything, the first row
/// selected.
pub open spec fn app_of(
    repo: Seq<char>,
    host: Option<Seq<char>>,
    events: Seq<EvView>,
    initial: Seq<char>,
) -> AppView {
    let zero = Rect { x: 0, y: 0, width: 0, height: 0 };
    AppView {
        repo,
        host,
        events,
        filters: seq![initial, seq![], seq![], seq![], seq![]],
        active: 0,
        col_w: seq![2u16, 16u16, 18u16, 16u16, 0u16],
        state: TableState { selected: None, offset: 0 },
        table_area: zero,
        spark_area: zero,
        spark_days: seq![],
        drag: None,
        last_click: None,
        status: None,
    }.reset()
}

/// Whether every one of `words` stands somewhere in `hay`.
pub fn contains_all(hay: &str, words: &Vec<String>) -> (r: bool)
    ensures
        r == has_all(hay@, text::texts(words@)),
{
    let mut i: usize = 0;
    while i < words.len()
        invariant
            i <= words@.len(),
            forall|k: int| 0 <= k < i ==> text::occurs(hay@, #[trigger] text::texts(words@)[k]),
        decreases words@.len() - i,
    {
        assert(text::texts(words@)[i as int] == words@[i as int]@);
        if !contains(hay, words[i].as_str()) {
            return false;
        }
        i += 1;
    }
    true
}

/// The words of a filter in lower case.
pub fn lower_words(filter: &str) -> (r: Vec<String>)
    ensures
        text::texts(r@) == needles(filter@),
{
    let words = split_words(filter);
    let mut out: Vec<String> = Vec::new();
    let mut i: usize = 0;
    while i < words.len()
        invariant
            i <= words@.len(),
            out@.len() == i,
            forall|k: int|
                0 <= k < i ==> (#[trigger] out@[k])@ == text::lower(text::texts(words@)[k]),
        decreases words@.len() - i,
    {
        assert(text::texts(words@)[i as int] == words@[i as int]@);
        let w = words[i].as_str().to_lowercase();
        out.push(w);
        i += 1;
    }
    assert(text::texts(out@) =~= needles(filter@));
    out
}

/// What the words of several filters are.
pub open spec fn word_lists(words: Seq<Vec<String>>) -> Seq<Seq<Seq<char>>> {
    words.map_values(|w: Vec<String>| text::texts(w@))
}

/// Whether an event has all words of every filter, each list of words already in
/// lower case.
pub fn event_shows(e: &Ev, words: &Vec<Vec<String>>) -> (r: bool)
    ensures
        r == forall|col: int|
            0 <= col < words@.len() ==> has_all(
                haystack(e@, col),
                #[trigger] word_lists(words@)[col],
            ),
{
    let mut col: usize = 0;
    while col < words.len()
        invariant
            col <= words@.len(),
            forall|k: int|
                0 <= k < col ==> has_all(haystack(e@, k), #[trigger] word_lists(words@)[k]),
        decreases words@.len() - col,
    {
        assert(word_lists(words@)[col as int] == text::texts(words@[col as int]@));
        if words[col].len() > 0 {
            let ok = if col == 0 {
                contains_all(e.search.as_str(), &words[col])
            } else {
                contains_all(e.cell(col).as_str().to_lowercase().as_str(), &words[col])
            };
            if !ok {
                return false;
            }
        }
        col += 1;
    }
    true
}

// ---------------------------------------------------------------------------
// Facts about the rows
// ---------------------------------------------------------------------------

/// The matching events are in range and ascending.
pub proof fn lemma_matching_ascending(events: Seq<EvView>, filters: Seq<Seq<char>>, n: int)
    requires
        0 <= n <= events.len() <= usize::MAX,
    ensures
        ({
            let m = matching_upto(events, filters, n);
            &&& forall|k: int| 0 <= k < m.len() ==> 0 <= #[trigger] m[k] < n
            &&& forall|k: int, l: int| 0 <= k < l < m.len() ==> m[k] < m[l]
            &&& m.len() <= n
        }),
    decreases n,
{
    if n > 0 {
        lemma_matching_ascending(events, filters, n - 1);
    }
}

/// A row belongs to an event, and a commit's row to a commit of it.
pub open spec fn row_ok(events: Seq<EvView>, row: Row) -> bool {
    match row {
        Row::Event(i) => i < events.len(),
        Row::Commit(i, c) => i < events.len() && (events[i as int].commits matches Some(cs) && c
            < cs.len()),
    }
}

/// Every row of the table belongs to an event, and a commit's row to a commit.
pub proof fn lemma_splice_ok(events: Seq<EvView>, idx: Seq<usize>)
    requires
        forall|k: int| 0 <= k < idx.len() ==> (#[trigger] idx[k]) < events.len(),
        forall|k: int| 0 <= k < events.len() ==> (#[trigger] events[k].commits matches Some(cs)
            ==> cs.len() <= usize::MAX),
    ensures
        forall|k: int|
            0 <= k < splice(events, idx).len() ==> row_ok(
                events,
                #[trigger] splice(events, idx)[k],
            ),
    decreases idx.len(),
{
    if idx.len() > 0 {
        let rest = idx.drop_last();
        assert forall|k: int| 0 <= k < rest.len() implies (#[trigger] rest[k]) < events.len() by {
            assert(rest[k] == idx[k]);
        }
        lemma_splice_ok(events, rest);
        let i = idx.last();
        assert(idx[idx.len() - 1] == i);
        let e = events[i as int];
        let head = splice(events, rest);
        let tail = rows_of(e, i);
        assert forall|k: int| 0 <= k < splice(events, idx).len() implies row_ok(
            events,
            #[trigger] splice(events, idx)[k],
        ) by {
            if k < head.len() {
                assert(splice(events, idx)[k] == head[k]);
            } else {
                assert(splice(events, idx)[k] == tail[k - head.len()]);
            }
        }
    }
}

impl App {
    /// The lengths of the lists of commits are machine numbers.
    proof fn lemma_commit_lengths(&self)
        ensures
            forall|k: int|
                0 <= k < self@.events.len() ==> (#[trigger] self@.events[k].commits matches Some(cs)
                    ==> cs.len() <= usize::MAX),
            self@.events.len() == self.events@.len(),
            self@.events.len() <= usize::MAX,
    {
        assert(self.events@.len() == self.events.len());
        assert forall|k: int|
            0 <= k < self@.events.len() && #[trigger] self@.events[k].commits is Some implies
            self@.events[k].commits->0.len() <= usize::MAX by {
            assert(self@.events[k] == self.events@[k]@);
            let v = self.events@[k].commits->0;
            assert(v@.len() == v.len());
        }
    }

    /// Every row of the table belongs to an event, and a commit's row to a commit.
    pub proof fn lemma_rows_ok(&self)
        ensures
            forall|k: int|
                0 <= k < self@.rows().len() ==> row_ok(
                    self@.events,
                    #[trigger] self@.rows()[k],
                ),
    {
        self.lemma_commit_lengths();
        lemma_matching_ascending(self@.events, self@.filters, self@.events.len() as int);
        lemma_splice_ok(self@.events, self@.matching());
    }

    /// The events that are shown are events.
    pub proof fn lemma_matching_in_range(&self)
        ensures
            forall|k: int|
                0 <= k < self@.matching().len() ==> (#[trigger] self@.matching()[k])
                    < self.events@.len(),
    {
        self.lemma_commit_lengths();
        lemma_matching_ascending(self@.events, self@.filters, self@.events.len() as int);
    }

    /// The state at the start.
    pub fn new(repo: String, host: Option<String>, events: Vec<Ev>, initial: String) -> (r: App)
        ensures
            r@ == app_of(repo@, text::opt_text(host), event::views(events@), initial@),
            r@.wf(),
    {
        let zero = Rect::new(0, 0, 0, 0);
        let mut app = App {
            repo,
            host,
            events,
            filters: [initial, String::new(), String::new(), String::new(), String::new()],
            active: 0,
            col_w: [2, 16, 18, 16, 0],
            state: TableState { selected: None, offset: 0 },
            table_area: zero,
            spark_area: zero,
            spark_days: Vec::new(),
            drag: None,
            last_click: None,
            status: None,
        };
        assert(app@.filters =~= seq![initial@, seq![], seq![], seq![], seq![]]);
        assert(app@.col_w =~= seq![2u16, 16u16, 18u16, 16u16, 0u16]);
        assert(app@.spark_days =~= seq![]);
        app.reset_sel();
        app
    }

    /// The words of every filter, in lower case.
    fn filter_words(&self) -> (r: Vec<Vec<String>>)
        ensures
            r@.len() == FILTERS,
            forall|col: int|
                0 <= col < FILTERS ==> #[trigger] word_lists(r@)[col] == needles(
                    self@.filters[col],
                ),
    {
        let mut out: Vec<Vec<String>> = Vec::new();
        let mut col: usize = 0;
        while col < FILTERS
            invariant
                col <= FILTERS,
                out@.len() == col,
                forall|k: int|
                    0 <= k < col ==> #[trigger] word_lists(out@)[k] == needles(self@.filters[k]),
            decreases FILTERS - col,
        {
            let ghost done = out@;
            let w = lower_words(self.filters[col].as_str());
            out.push(w);
            assert forall|k: int| 0 <= k < col + 1 implies #[trigger] word_lists(out@)[k]
                == needles(self@.filters[k]) by {
                if k < col {
                    assert(word_lists(out@)[k] == word_lists(done)[k]);
                }
            }
            col += 1;
        }
        out
    }

    /// The indices of the events that are shown, ascending.
    pub fn filtered(&self) -> (r: Vec<usize>)
        ensures
            r@ == self@.matching(),
    {
        let words = self.filter_words();
        let mut out: Vec<usize> = Vec::new();
        let mut i: usize = 0;
        assert(out@ =~= matching_upto(self@.events, self@.filters, 0));
        while i < self.events.len()
            invariant
                i <= self.events@.len(),
                words@.len() == FILTERS,
                forall|col: int|
                    0 <= col < FILTERS ==> #[trigger] word_lists(words@)[col] == needles(
                        self@.filters[col],
                    ),
                out@ == matching_upto(self@.events, self@.filters, i as int),
            decreases self.events@.len() - i,
        {
            let shown = event_shows(&self.events[i], &words);
            proof {
                let e = self.events@[i as int]@;
                assert(self@.events[i as int] == e);
                assert(self@.filters.len() == FILTERS);
                assert(shown == shows(e, self@.filters)) by {
                    if shown {
                        assert forall|col: int| 0 <= col < self@.filters.len() implies has_all(
                            haystack(e, col),
                            needles(#[trigger] self@.filters[col]),
                        ) by {
                            assert(word_lists(words@)[col] == needles(self@.filters[col]));
                        }
                    } else {
                        let col = choose|col: int|
                            0 <= col < words@.len() && !has_all(
                                haystack(e, col),
                                #[trigger] word_lists(words@)[col],
                            );
                        assert(!has_all(haystack(e, col), needles(self@.filters[col])));
                    }
                }
            }
            if shown {
                out.push(i);
            }
            i += 1;
        }
        out
    }

    /// The rows of the table: the events that are shown, each expanded push
    /// followed by its commits.
    pub fn visible(&self) -> (r: Vec<Row>)
        ensures
            r@ == self@.rows(),
    {
        let idx = self.filtered();
        let mut out: Vec<Row> = Vec::new();
        let mut k: usize = 0;
        proof {
            self.lemma_commit_lengths();
            lemma_matching_ascending(self@.events, self@.filters, self@.events.len() as int);
        }
        assert(out@ =~= splice(self@.events, idx@.take(0)));
        while k < idx.len()
            invariant
                k <= idx@.len(),
                forall|j: int| 0 <= j < idx@.len() ==> (#[trigger] idx@[j]) < self.events@.len(),
                out@ == splice(self@.events, idx@.take(k as int)),
            decreases idx@.len() - k,
        {
            let i: usize = idx[k];
            let ghost e = self@.events[i as int];
            let ghost start = out@;
            assert(e == self.events@[i as int]@);
            assert(idx@.take(k + 1).drop_last() =~= idx@.take(k as int));
            assert(idx@.take(k + 1).last() == i);
            out.push(Row::Event(i));
            assert(out@ =~= start + seq![Row::Event(i)]);
            if self.events[i].expanded {
                match &self.events[i].commits {
                    Some(cs) => {
                        let mut c: usize = 0;
                        while c < cs.len()
                            invariant
                                c <= cs@.len(),
                                out@ == start + seq![Row::Event(i)] + Seq::new(
                                    c as nat,
                                    |d: int| Row::Commit(i, d as usize),
                                ),
                            decreases cs@.len() - c,
                        {
                            let ghost had = out@;
                            out.push(Row::Commit(i, c));
                            assert(out@ =~= start + seq![Row::Event(i)] + Seq::new(
                                (c + 1) as nat,
                                |d: int| Row::Commit(i, d as usize),
                            ));
                            c += 1;
                        }
                        assert(out@ =~= start + rows_of(e, i));
                    },
                    None => {
                        assert(out@ =~= start + rows_of(e, i));
                    },
                }
            } else {
                assert(out@ =~= start + rows_of(e, i));
            }
            k += 1;
        }
        assert(idx@.take(k as int) =~= idx@);
        out
    }

    /// Selects the first row, or none where there are no rows.
    pub fn reset_sel(&mut self)
        ensures
            final(self)@ == old(self)@.reset(),
    {
        let none = self.visible().is_empty();
        self.state.select(
            if none {
                None
            } else {
                Some(0)
            },
        );
    }

    /// Moves the selection by `delta` rows of `len`, as far as there are rows.
    pub fn move_sel(&mut self, delta: isize, len: usize)
        ensures
            final(self)@ == old(self)@.moved(delta as int, len as nat),
    {
        if len == 0 {
            self.state.select(None);
            return;
        }
        let from: i128 = match self.state.selected {
            Some(k) => k as i128,
            None => 0,
        };
        let to: i128 = from + delta as i128;
        let last: i128 = len as i128 - 1;
        let at: usize = if to < 0 {
            0
        } else if to > last {
            len - 1
        } else {
            to as usize
        };
        self.state.select(Some(at));
    }

    /// Expands or collapses a push, or says that its commits have to be fetched
    /// first.
    pub fn toggle_expand(&mut self, i: usize) -> (r: Action)
        requires
            i < old(self).events@.len(),
        ensures
            (final(self)@, r@) == old(self)@.toggle(i as int),
    {
        let ghost start = self@;
        assert(start.events[i as int] == self.events@[i as int]@);
        if !self.events[i].expandable() {
            return Action::Stay;
        }
        if self.events[i].commits.is_none() {
            let args = fetch_commits_request(
                &self.host,
                self.repo.as_str(),
                self.events[i].before.as_str(),
                self.events[i].after.as_str(),
            );
            return Action::Fetch { event: i, args };
        }
        let open = !self.events[i].expanded;
        self.events[i].expanded = open;
        assert(self@.events =~= start.toggle(i as int).0.events);
        Action::Stay
    }

    /// Expands or collapses a push, with the reply to the call that
    /// [`App::toggle_expand`] asked for.
    pub fn toggle_expand_reply(&mut self, i: usize, reply: &Reply)
        requires
            i < old(self).events@.len(),
        ensures
            final(self)@ == old(self)@.toggle_fetched(i as int, reply@),
    {
        let ghost start = self@;
        assert(start.events[i as int] == self.events@[i as int]@);
        let (rows, total) = fetch_commits_reply(reply);
        self.events[i].commits = Some(rows);
        if total.is_some() {
            self.events[i].commit_count = total;
        }
        let open = !self.events[i].expanded;
        self.events[i].expanded = open;
        assert(self@.events =~= start.toggle_fetched(i as int, reply@).events);
    }

    /// Says in the footer whether a text could be put on the clipboard.
    pub fn copied(&mut self, ok: bool)
        ensures
            final(self)@ == (AppView {
                status: Some(
                    if ok {
                        "copied"@
                    } else {
                        "no clipboard tool (pbcopy/wl-copy/xclip)"@
                    },
                ),
                ..old(self)@
            }),
    {
        self.status = Some(
            if ok {
                "copied".to_owned()
            } else {
                "no clipboard tool (pbcopy/wl-copy/xclip)".to_owned()
            },
        );
    }

    /// Whether the columns begin and end where a cell's coordinates can, with the
    /// table in the given area. They do on any screen that is not many thousands of
    /// cells wide.
    pub fn columns_fit(&self, area: Rect) -> (r: bool)
        ensures
            r == columns_fit_in(self@, area),
    {
        let left: u32 = area.x as u32 + self.col_w[0] as u32 + self.col_w[1] as u32
            + self.col_w[2] as u32 + self.col_w[3] as u32 + 4;
        proof {
            reveal_with_fuel(AppView::column_left, 5);
        }
        left <= 65535 && area.x as u32 + area.width as u32 <= 65535
    }

    /// The first cell of each column on the screen, and the one past its last.
    pub fn col_spans(&self) -> (r: [(u16, u16); 5])
        requires
            self@.spans_fit(),
        ensures
            forall|c: int|
                0 <= c < 5 ==> (#[trigger] r@[c]).0 == self@.span(c).0 && r@[c].1 == self@.span(
                    c,
                ).1,
    {
        proof {
            reveal_with_fuel(AppView::column_left, 5);
        }
        let a = self.table_area;
        let w = self.col_w;
        let x0: u16 = a.x;
        let x1: u16 = x0 + w[0] + 1;
        let x2: u16 = x1 + w[1] + 1;
        let x3: u16 = x2 + w[2] + 1;
        let x4: u16 = x3 + w[3] + 1;
        let right: u16 = a.x + a.width;
        let detail: u16 = if x4 <= right {
            x4
        } else {
            right
        };
        [(x0, x0 + w[0]), (x1, x1 + w[1]), (x2, x2 + w[2]), (x3, x3 + w[3]), (detail, right)]
    }
}

}
