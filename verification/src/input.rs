//! Keys and the mouse: what each input makes of the state, and what is to be done
//! outside.
use crate::app::{Action, ActionView, App, AppView, Row, FILTERS};
use crate::event;
use crate::event::{detail_number, EvView};
use crate::gh::push_arg;
use crate::text;
use crate::text::{chars_of, same, split_words};
use vstd::prelude::*;
use vstd::string::*;

verus! {

// ---------------------------------------------------------------------------
// Inputs
// ---------------------------------------------------------------------------

/// No modifier key.
pub const NONE: u8 = 0;

/// The shift key.
pub const SHIFT: u8 = 1;

/// The control key.
pub const CONTROL: u8 = 2;

/// A key.
#[derive(Clone, Copy, PartialEq, Eq, Structural, Debug)]
pub enum KeyCode {
    Char(char),
    Esc,
    Tab,
    BackTab,
    Enter,
    Down,
    Up,
    PageDown,
    PageUp,
    Home,
    End,
    Backspace,
    /// Any other key.
    Other,
}

/// A key that was pressed, and the modifier keys that were held: one bit for
/// each.
#[derive(Clone, Copy, PartialEq, Eq, Structural, Debug)]
pub struct KeyEvent {
    pub modifiers: u8,
    pub code: KeyCode,
}

/// What the mouse did.
#[derive(Clone, Copy, PartialEq, Eq, Structural, Debug)]
pub enum MouseKind {
    ScrollUp,
    ScrollDown,
    /// The left button was pressed.
    Down,
    /// The mouse was moved with the left button held.
    Drag,
    /// The left button was let go.
    Up,
    /// Anything else.
    Other,
}

/// What the mouse did, and in which cell.
#[derive(Clone, Copy, PartialEq, Eq, Structural, Debug)]
pub struct MouseEvent {
    pub kind: MouseKind,
    pub column: u16,
    pub row: u16,
}

/// How soon a second click has to follow to count as a double click: less than
/// this many nanoseconds.
pub const DOUBLE_CLICK: u64 = 400_000_000;

/// The least width of a column that can be resized.
pub const LEAST_WIDTH: u16 = 4;

// ---------------------------------------------------------------------------
// The text of a row, and its page
// ---------------------------------------------------------------------------

/// A row as text: the fields of an event with tabs between them, or a commit's row
/// as it stands.
pub open spec fn row_text(events: Seq<EvView>, row: Row) -> Seq<char> {
    match row {
        Row::Event(i) => {
            let e = events[i as int];
            e.day + " "@ + e.time + "\t"@ + e.label + "\t"@ + e.actor + "\t"@ + e.detail
        },
        Row::Commit(i, c) => events[i as int].commits->0[c as int],
    }
}

/// A text that is a commit id, at least of the length that rows show.
pub open spec fn is_sha(t: Seq<char>) -> bool {
    t.len() >= 7 && forall|k: int| 0 <= k < t.len() ==> text::hex_digit(#[trigger] t[k])
}

/// The commit id that a commit's row begins with; none of a row that is no
/// commit.
pub open spec fn row_sha(row: Seq<char>) -> Option<Seq<char>> {
    let words = text::words(row);
    if words.len() > 0 && is_sha(words[0]) {
        Some(words[0])
    } else {
        None
    }
}

/// A kind of branch change: small letters and low lines alone.
pub open spec fn is_ref_change(label: Seq<char>) -> bool {
    forall|k: int|
        0 <= k < label.len() ==> ('a' <= #[trigger] label[k] <= 'z' || label[k] == '_')
}

/// The repository as `gh browse` names it, with its host where one is set.
pub open spec fn full_repo(app: AppView) -> Seq<char> {
    match app.host {
        Some(h) => h + "/"@ + app.repo,
        None => app.repo,
    }
}

/// The arguments that open a row on GitHub: a commit by its id, a pull request or
/// issue by its number, a branch change by its branch. None for what has no page.
pub open spec fn browse_args(app: AppView, i: int, sha: Option<Seq<char>>) -> Option<
    Seq<Seq<char>>,
> {
    let e = app.events[i];
    let start = seq!["browse"@, "-R"@, full_repo(app)];
    match sha {
        Some(id) => Some(start.push(id)),
        None => if event::number_in(e.detail).len() > 0 {
            Some(start.push(event::number_in(e.detail)))
        } else if is_ref_change(e.label) {
            Some(start.push("-b"@).push(e.detail))
        } else {
            None
        },
    }
}

/// What opening a row on GitHub asks for.
pub open spec fn open_row(app: AppView, row: Row) -> ActionView {
    let sha = match row {
        Row::Event(_) => None,
        Row::Commit(i, c) => row_sha(app.events[i as int].commits->0[c as int]),
    };
    match browse_args(app, row.event() as int, sha) {
        Some(args) => ActionView::Open(args),
        None => ActionView::Stay,
    }
}

/// A row of the table as text, for the clipboard.
pub fn line_text(app: &App, row: Row) -> (r: String)
    requires
        crate::app::row_ok(app@.events, row),
    ensures
        r@ == row_text(app@.events, row),
{
    match row {
        Row::Event(i) => {
            let e = &app.events[i];
            assert(app@.events[i as int] == e@);
            let mut t = e.day.clone();
            t.append(" ");
            t.append(e.time.as_str());
            t.append("\t");
            t.append(e.label.as_str());
            t.append("\t");
            t.append(e.actor.as_str());
            t.append("\t");
            t.append(e.detail.as_str());
            t
        },
        Row::Commit(i, c) => {
            assert(app@.events[i as int] == app.events@[i as int]@);
            match &app.events[i].commits {
                Some(cs) => {
                    assert(text::texts(cs@)[c as int] == cs@[c as int]@);
                    cs[c].clone()
                },
                None => String::new(),
            }
        },
    }
}

/// Whether a text is a commit id.
fn looks_like_sha(t: &str) -> (r: bool)
    ensures
        r == is_sha(t@),
{
    let c = chars_of(t);
    let mut i: usize = 0;
    while i < c.len()
        invariant
            c@ == t@,
            i <= c@.len(),
            forall|k: int| 0 <= k < i ==> text::hex_digit(#[trigger] c@[k]),
        decreases c@.len() - i,
    {
        let d = c[i];
        if !(('0' <= d && d <= '9') || ('a' <= d && d <= 'f') || ('A' <= d && d <= 'F')) {
            assert(!text::hex_digit(t@[i as int]));
            return false;
        }
        i += 1;
    }
    c.len() >= 7
}

/// The commit id that a commit's row begins with, if it is a commit's.
pub fn commit_sha(row: &str) -> (r: Option<String>)
    ensures
        text::opt_text(r) == row_sha(row@),
{
    let words = split_words(row);
    assert(text::texts(words@).len() == words@.len());
    if words.len() > 0 {
        assert(text::texts(words@)[0] == words@[0]@);
        if looks_like_sha(words[0].as_str()) {
            return Some(words[0].clone());
        }
    }
    None
}

/// Whether a label is a kind of branch change.
fn names_ref_change(label: &str) -> (r: bool)
    ensures
        r == is_ref_change(label@),
{
    let c = chars_of(label);
    let mut i: usize = 0;
    while i < c.len()
        invariant
            c@ == label@,
            i <= c@.len(),
            forall|k: int| 0 <= k < i ==> ('a' <= #[trigger] c@[k] <= 'z' || c@[k] == '_'),
        decreases c@.len() - i,
    {
        if !(('a' <= c[i] && c[i] <= 'z') || c[i] == '_') {
            assert(!('a' <= label@[i as int] <= 'z' || label@[i as int] == '_'));
            return false;
        }
        i += 1;
    }
    true
}

/// The arguments that open the row of an event, or the commit of one, on GitHub.
pub fn open_on_github(app: &App, i: usize, sha: Option<String>) -> (r: Option<Vec<String>>)
    requires
        i < app.events@.len(),
    ensures
        crate::load::opt_args(r) == browse_args(app@, i as int, text::opt_text(sha)),
{
    let e = &app.events[i];
    assert(app@.events[i as int] == e@);
    let repo = match &app.host {
        Some(h) => {
            let mut t = h.clone();
            t.append("/");
            t.append(app.repo.as_str());
            t
        },
        None => app.repo.clone(),
    };
    let mut args: Vec<String> = Vec::new();
    push_arg(&mut args, "browse");
    push_arg(&mut args, "-R");
    push_arg(&mut args, repo.as_str());
    assert(text::texts(args@) =~= seq!["browse"@, "-R"@, full_repo(app@)]);
    match sha {
        Some(id) => {
            push_arg(&mut args, id.as_str());
        },
        None => {
            let number = detail_number(e.detail.as_str());
            if !number.as_str().is_empty() {
                push_arg(&mut args, number.as_str());
            } else if names_ref_change(e.label.as_str()) {
                push_arg(&mut args, "-b");
                push_arg(&mut args, e.detail.as_str());
            } else {
                return None;
            }
        },
    }
    Some(args)
}

// ---------------------------------------------------------------------------
// The clipboard
// ---------------------------------------------------------------------------

/// The programs that put their input on the clipboard, each with its arguments, in
/// the order in which they are tried.
pub open spec fn clipboard_tools() -> Seq<Seq<Seq<char>>> {
    seq![seq!["pbcopy"@], seq!["wl-copy"@], seq!["xclip"@, "-selection"@, "clipboard"@]]
}

/// The clipboard program that is tried when `n` others could not be started, and
/// its arguments. None where no other is left.
pub fn clipboard_tool(n: usize) -> (r: Option<Vec<String>>)
    ensures
        crate::load::opt_args(r) == (if n < clipboard_tools().len() {
            Some(clipboard_tools()[n as int])
        } else {
            None
        }),
{
    let mut args: Vec<String> = Vec::new();
    if n == 0 {
        push_arg(&mut args, "pbcopy");
    } else if n == 1 {
        push_arg(&mut args, "wl-copy");
    } else if n == 2 {
        push_arg(&mut args, "xclip");
        push_arg(&mut args, "-selection");
        push_arg(&mut args, "clipboard");
    } else {
        return None;
    }
    assert(text::texts(args@) =~= clipboard_tools()[n as int]);
    Some(args)
}

/// How far copying has come.
#[derive(Clone, Copy, PartialEq, Eq, Structural, Debug)]
pub enum Copying {
    /// The program with this index is to be started.
    Try(usize),
    /// It is over, and a program did it or none was there.
    Done(bool),
}

/// How copying goes on after the program with index `n` was started or could not
/// be: the first that starts does it.
pub open spec fn copy_step(n: int, started: bool) -> Copying {
    if started {
        Copying::Done(true)
    } else if n + 1 < clipboard_tools().len() {
        Copying::Try((n + 1) as usize)
    } else {
        Copying::Done(false)
    }
}

/// How copying goes on after a clipboard program was started or could not be.
pub fn copy_to_clipboard(n: usize, started: bool) -> (r: Copying)
    ensures
        r == copy_step(n as int, started),
{
    if started {
        Copying::Done(true)
    } else if n < 2 {
        Copying::Try(n + 1)
    } else {
        Copying::Done(false)
    }
}

// ---------------------------------------------------------------------------
// Keys
// ---------------------------------------------------------------------------

/// Five empty filters.
pub open spec fn no_filters() -> Seq<Seq<char>> {
    seq![seq![], seq![], seq![], seq![], seq![]]
}

/// No filter holds anything.
pub open spec fn unfiltered(app: AppView) -> bool {
    forall|col: int| 0 <= col < app.filters.len() ==> (#[trigger] app.filters[col]).len() == 0
}

/// The state with the thread of an event alone: its key in the filter on
/// everything, and nothing in the others.
pub open spec fn focused(app: AppView, i: int) -> AppView {
    let key = app.events[i].key();
    AppView {
        status: Some("focused: "@ + key),
        ..AppView { filters: no_filters().update(0, key), active: 0, ..app }.reset()
    }
}

/// The state with another text in the active filter.
pub open spec fn edited(app: AppView, filter: Seq<char>) -> AppView {
    AppView { filters: app.filters.update(app.active as int, filter), ..app }.reset()
}

/// How far `Home` and `End` move the selection: past every row.
pub open spec fn far() -> int {
    isize::MAX as int / 2
}

/// What a key does. Every key takes the message off the footer.
pub open spec fn key_step(app: AppView, k: KeyEvent) -> (AppView, ActionView) {
    let a = AppView { status: None, ..app };
    let n = a.rows().len();
    match k.code {
        KeyCode::Esc => if unfiltered(a) {
            (a, ActionView::Quit)
        } else {
            (AppView { filters: no_filters(), ..a }.reset(), ActionView::Stay)
        },
        KeyCode::Tab => (
            AppView { active: ((a.active + 1) % FILTERS as int) as usize, ..a },
            ActionView::Stay,
        ),
        KeyCode::BackTab => (
            AppView { active: ((a.active + FILTERS - 1) % FILTERS as int) as usize, ..a },
            ActionView::Stay,
        ),
        KeyCode::Enter => match a.selected_row() {
            Some(Row::Event(i)) => a.toggle(i as int),
            _ => (a, ActionView::Stay),
        },
        KeyCode::Down => (a.moved(1, n), ActionView::Stay),
        KeyCode::Up => (a.moved(-1, n), ActionView::Stay),
        KeyCode::PageDown => (a.moved(10, n), ActionView::Stay),
        KeyCode::PageUp => (a.moved(-10, n), ActionView::Stay),
        KeyCode::Home => (a.moved(-far() - 1, n), ActionView::Stay),
        KeyCode::End => (a.moved(far(), n), ActionView::Stay),
        KeyCode::Backspace => {
            let old = a.filters[a.active as int];
            (
                edited(
                    a,
                    if old.len() > 0 {
                        old.drop_last()
                    } else {
                        old
                    },
                ),
                ActionView::Stay,
            )
        },
        KeyCode::Char(c) => if k.modifiers == CONTROL {
            if c == 'q' {
                (a, ActionView::Quit)
            } else if c == 'c' {
                match a.selected_row() {
                    Some(row) => (a, ActionView::Copy(row_text(a.events, row))),
                    None => (a, ActionView::Stay),
                }
            } else if c == 'f' {
                match a.selected_row() {
                    Some(row) => (focused(a, row.event() as int), ActionView::Stay),
                    None => (a, ActionView::Stay),
                }
            } else if c == 'o' {
                match a.selected_row() {
                    Some(row) => (a, open_row(a, row)),
                    None => (a, ActionView::Stay),
                }
            } else {
                (a, ActionView::Stay)
            }
        } else if k.modifiers == NONE || k.modifiers == SHIFT {
            (edited(a, a.filters[a.active as int].push(c)), ActionView::Stay)
        } else {
            (a, ActionView::Stay)
        },
        KeyCode::Other => (a, ActionView::Stay),
    }
}

/// The selected row, if there is one.
pub fn selected_row(app: &App) -> (r: Option<Row>)
    ensures
        r == app@.selected_row(),
        r matches Some(row) ==> crate::app::row_ok(app@.events, row),
{
    let rows = app.visible();
    proof {
        app.lemma_rows_ok();
    }
    match app.state.selected {
        Some(k) => if k < rows.len() {
            Some(rows[k])
        } else {
            None
        },
        None => None,
    }
}

/// Whether no filter holds anything.
fn is_unfiltered(app: &App) -> (r: bool)
    ensures
        r == unfiltered(app@),
{
    let mut i: usize = 0;
    while i < FILTERS
        invariant
            i <= FILTERS,
            forall|k: int| 0 <= k < i ==> (#[trigger] app@.filters[k]).len() == 0,
        decreases FILTERS - i,
    {
        assert(app@.filters[i as int] == app.filters@[i as int]@);
        if !app.filters[i].as_str().is_empty() {
            return false;
        }
        i += 1;
    }
    true
}

/// Empties every filter.
fn clear_filters(app: &mut App)
    ensures
        final(app)@ == (AppView { filters: no_filters(), ..old(app)@ }),
{
    app.filters = [String::new(), String::new(), String::new(), String::new(), String::new()];
    assert(app@.filters =~= no_filters());
}

/// Shows the thread of an event alone.
fn focus(app: &mut App, i: usize)
    requires
        i < old(app).events@.len(),
    ensures
        final(app)@ == focused(old(app)@, i as int),
{
    let ghost start = app@;
    assert(app@.events[i as int] == app.events@[i as int]@);
    let key = app.events[i].filter_key();
    let mut message = "focused: ".to_owned();
    message.append(key.as_str());
    clear_filters(app);
    app.filters[0] = key;
    assert(app@.filters =~= no_filters().update(0, key@));
    app.active = 0;
    app.reset_sel();
    app.status = Some(message);
}

/// Puts a character at the end of the active filter.
fn type_char(app: &mut App, c: char)
    requires
        old(app)@.wf(),
    ensures
        final(app)@ == edited(old(app)@, old(app)@.filters[old(app).active as int].push(c)),
{
    let ghost start = app@;
    let at: usize = app.active;
    app.filters[at].push(c);
    assert(app@.filters =~= start.filters.update(at as int, start.filters[at as int].push(c)));
    app.reset_sel();
}

/// Takes a character off the end of the active filter.
fn erase_char(app: &mut App)
    requires
        old(app)@.wf(),
    ensures
        final(app)@ == edited(
            old(app)@,
            if old(app)@.filters[old(app).active as int].len() > 0 {
                old(app)@.filters[old(app).active as int].drop_last()
            } else {
                old(app)@.filters[old(app).active as int]
            },
        ),
{
    let ghost start = app@;
    let at: usize = app.active;
    let ghost text = start.filters[at as int];
    let _ = app.filters[at].pop();
    assert(app@.filters =~= start.filters.update(
        at as int,
        if text.len() > 0 {
            text.drop_last()
        } else {
            text
        },
    ));
    app.reset_sel();
}

/// Opens the row of an event or of a commit on GitHub.
fn open_selected(app: &App, row: Row) -> (r: Action)
    requires
        crate::app::row_ok(app@.events, row),
    ensures
        r@ == open_row(app@, row),
{
    let sha = match row {
        Row::Event(_) => None,
        Row::Commit(_, _) => commit_sha(line_text(app, row).as_str()),
    };
    match open_on_github(app, row.event_index(), sha) {
        Some(args) => Action::Open(args),
        None => Action::Stay,
    }
}

/// Does what a key asks for, and says what is to be done outside.
pub fn handle_key(app: &mut App, k: KeyEvent) -> (r: Action)
    requires
        old(app)@.wf(),
    ensures
        (final(app)@, r@) == key_step(old(app)@, k),
        final(app)@.wf(),
{
    app.status = None;
    let ghost a = app@;
    let len: usize = app.visible().len();
    match k.code {
        KeyCode::Esc => {
            if is_unfiltered(app) {
                return Action::Quit;
            }
            clear_filters(app);
            app.reset_sel();
        },
        KeyCode::Tab => {
            app.active = (app.active + 1) % FILTERS;
        },
        KeyCode::BackTab => {
            app.active = (app.active + FILTERS - 1) % FILTERS;
        },
        KeyCode::Enter => match selected_row(app) {
            Some(Row::Event(i)) => {
                return app.toggle_expand(i);
            },
            _ => {},
        },
        KeyCode::Down => app.move_sel(1, len),
        KeyCode::Up => app.move_sel(-1, len),
        KeyCode::PageDown => app.move_sel(10, len),
        KeyCode::PageUp => app.move_sel(-10, len),
        KeyCode::Home => app.move_sel(-(isize::MAX / 2) - 1, len),
        KeyCode::End => app.move_sel(isize::MAX / 2, len),
        KeyCode::Backspace => erase_char(app),
        KeyCode::Char(c) => {
            if k.modifiers == CONTROL {
                if c == 'q' {
                    return Action::Quit;
                }
                match selected_row(app) {
                    Some(row) => {
                        if c == 'c' {
                            return Action::Copy(line_text(app, row));
                        } else if c == 'f' {
                            focus(app, row.event_index());
                        } else if c == 'o' {
                            return open_selected(app, row);
                        }
                    },
                    None => {},
                }
            } else if k.modifiers == NONE || k.modifiers == SHIFT {
                type_char(app, c);
            }
        },
        KeyCode::Other => {},
    }
    Action::Stay
}

// ---------------------------------------------------------------------------
// The mouse
// ---------------------------------------------------------------------------

/// A cell in the rows of the chart's bars, on the first bar or right of it.
pub open spec fn on_chart(app: AppView, x: int, y: int) -> bool {
    let area = app.spark_area;
    area.height > 0 && area.y <= y < area.bottom() && x >= area.x
}

/// The first row from `from` on that belongs to an event of the given day.
pub open spec fn day_row(
    rows: Seq<Row>,
    events: Seq<EvView>,
    day: Seq<char>,
    from: int,
) -> Option<usize>
    decreases rows.len() - from,
{
    if from < 0 || from >= rows.len() {
        None
    } else if events[rows[from].event() as int].day == day {
        Some(from as usize)
    } else {
        day_row(rows, events, day, from + 1)
    }
}

/// Clicking the chart: selects the first row of the day whose bar was hit.
pub open spec fn chart_click(app: AppView, x: int) -> AppView {
    let at = x - app.spark_area.x;
    if at < app.spark_days.len() {
        match day_row(app.rows(), app.events, app.spark_days[at], 0) {
            Some(k) => app.select(Some(k)),
            None => app,
        }
    } else {
        app
    }
}

/// The cell is on the right edge of column `c`, or next to it.
pub open spec fn on_edge(app: AppView, c: int, x: int) -> bool {
    -1 <= x - app.span(c).1 <= 1
}

/// The column whose right edge was hit, of those that can be resized.
pub open spec fn edge_hit(app: AppView, x: int) -> Option<usize> {
    if on_edge(app, 1, x) {
        Some(1)
    } else if on_edge(app, 2, x) {
        Some(2)
    } else if on_edge(app, 3, x) {
        Some(3)
    } else {
        None
    }
}

/// The cell is in column `c`.
pub open spec fn in_column(app: AppView, c: int, x: int) -> bool {
    app.span(c).0 <= x < app.span(c).1
}

/// The column of text that was hit.
pub open spec fn column_hit(app: AppView, x: int) -> Option<usize> {
    if in_column(app, 1, x) {
        Some(1)
    } else if in_column(app, 2, x) {
        Some(2)
    } else if in_column(app, 3, x) {
        Some(3)
    } else if in_column(app, 4, x) {
        Some(4)
    } else {
        None
    }
}

/// Expanding or collapsing what a row shows, where the row is an event's.
pub open spec fn toggle_row(app: AppView, row: Row) -> (AppView, ActionView) {
    match row {
        Row::Event(i) => app.toggle(i as int),
        Row::Commit(_, _) => (app, ActionView::Stay),
    }
}

/// The click is the second of two on row `k`, soon after the first.
pub open spec fn doubled(app: AppView, k: int, now: u64) -> bool {
    app.last_click matches Some((t, row)) && row == k && now - t < DOUBLE_CLICK
}

/// Clicking row `k` of the table: selects it. On its arrow, or with the second
/// click of two, it also expands or collapses a push.
pub open spec fn row_click(app: AppView, k: int, x: int, now: u64) -> (AppView, ActionView) {
    let a = app.select(Some(k as usize));
    let row = a.rows()[k];
    if in_column(a, 0, x) || doubled(a, k, now) {
        let (b, action) = toggle_row(a, row);
        (AppView { last_click: None, ..b }, action)
    } else {
        (AppView { last_click: Some((now, k as usize)), ..a }, ActionView::Stay)
    }
}

/// Pressing the left button: on the chart it jumps to a day, on the edge of a
/// column it begins to resize it, on the header it makes the column's filter the
/// active one, on a row it clicks the row.
pub open spec fn press(app: AppView, x: int, y: int, now: u64) -> (AppView, ActionView) {
    let area = app.table_area;
    if on_chart(app, x, y) {
        (chart_click(app, x), ActionView::Stay)
    } else {
        match edge_hit(app, x) {
            Some(c) => (
                AppView { drag: Some((c, app.span(c as int).0 as u16)), ..app },
                ActionView::Stay,
            ),
            None => if y == area.y {
                match column_hit(app, x) {
                    Some(c) => (AppView { active: c, ..app }, ActionView::Stay),
                    None => (app, ActionView::Stay),
                }
            } else if y > area.y && y - area.y - 1 + app.state.offset < app.rows().len() {
                row_click(app, y - area.y - 1 + app.state.offset, x, now)
            } else {
                (app, ActionView::Stay)
            },
        }
    }
}

/// The widest that a column can be dragged.
pub open spec fn most_width(app: AppView) -> int {
    if app.table_area.width >= LEAST_WIDTH + 6 {
        app.table_area.width - 6
    } else {
        LEAST_WIDTH as int
    }
}

/// The state with a column resized so that it ends at `x`.
pub open spec fn resized(app: AppView, x: int) -> AppView {
    match app.drag {
        Some((c, left)) => AppView {
            col_w: app.col_w.update(
                c as int,
                crate::app::clamped(x - left, LEAST_WIDTH as int, most_width(app)) as u16,
            ),
            ..app
        },
        None => app,
    }
}

/// What the mouse does, at the time `now` in nanoseconds. Before the table has
/// been drawn it does nothing.
pub open spec fn mouse_step(app: AppView, m: MouseEvent, now: u64) -> (AppView, ActionView) {
    if app.table_area.height == 0 {
        (app, ActionView::Stay)
    } else {
        match m.kind {
            MouseKind::ScrollUp => (app.moved(-3, app.rows().len()), ActionView::Stay),
            MouseKind::ScrollDown => (app.moved(3, app.rows().len()), ActionView::Stay),
            MouseKind::Down => press(app, m.column as int, m.row as int, now),
            MouseKind::Drag => (resized(app, m.column as int), ActionView::Stay),
            MouseKind::Up => (AppView { drag: None, ..app }, ActionView::Stay),
            MouseKind::Other => (app, ActionView::Stay),
        }
    }
}

/// The input looks at where the columns are.
pub open spec fn looks_at_columns(app: AppView, m: MouseEvent) -> bool {
    &&& app.table_area.height > 0
    &&& m.kind == MouseKind::Down
    &&& !on_chart(app, m.column as int, m.row as int)
}

/// Selects the first row of the day whose bar was clicked.
fn click_chart(app: &mut App, x: u16)
    requires
        x >= old(app).spark_area.x,
    ensures
        final(app)@ == chart_click(old(app)@, x as int),
{
    let at: usize = (x - app.spark_area.x) as usize;
    assert(app@.spark_days.len() == app.spark_days@.len());
    if at >= app.spark_days.len() {
        return;
    }
    assert(app@.spark_days[at as int] == app.spark_days@[at as int]@);
    let rows = app.visible();
    proof {
        app.lemma_rows_ok();
    }
    let ghost start = app@;
    let ghost day = app.spark_days@[at as int]@;
    let mut k: usize = 0;
    while k < rows.len()
        invariant
            k <= rows@.len(),
            app@ == start,
            start == old(app)@,
            at == x - start.spark_area.x,
            rows@ == start.rows(),
            at < app.spark_days@.len(),
            day == app.spark_days@[at as int]@,
            forall|j: int|
                0 <= j < rows@.len() ==> crate::app::row_ok(
                    start.events,
                    #[trigger] start.rows()[j],
                ),
            day_row(start.rows(), start.events, day, 0) == day_row(
                start.rows(),
                start.events,
                day,
                k as int,
            ),
        decreases rows@.len() - k,
    {
        let i: usize = rows[k].event_index();
        assert(crate::app::row_ok(start.events, start.rows()[k as int]));
        assert(start.events[i as int] == app.events@[i as int]@);
        if same(app.events[i].day.as_str(), app.spark_days[at].as_str()) {
            app.state.select(Some(k));
            return;
        }
        k += 1;
    }
}

/// Clicks a row of the table.
fn click_row(app: &mut App, k: usize, x: u16, now: u64) -> (r: Action)
    requires
        k < old(app)@.rows().len(),
        old(app)@.spans_fit(),
    ensures
        (final(app)@, r@) == row_click(old(app)@, k as int, x as int, now),
{
    let (left, right) = app.col_spans()[0];
    let on_arrow = x >= left && x < right;
    app.state.select(Some(k));
    let ghost a = app@;
    let row = app.visible()[k];
    proof {
        app.lemma_rows_ok();
        assert(crate::app::row_ok(a.events, a.rows()[k as int]));
        reveal_with_fuel(AppView::column_left, 5);
    }
    let twice = match app.last_click {
        Some((t, at)) => at == k && now.saturating_sub(t) < DOUBLE_CLICK,
        None => false,
    };
    if on_arrow || twice {
        let action = match row {
            Row::Event(i) => app.toggle_expand(i),
            Row::Commit(_, _) => Action::Stay,
        };
        app.last_click = None;
        action
    } else {
        app.last_click = Some((now, k));
        Action::Stay
    }
}

/// Presses the left button outside the chart.
fn press_table(app: &mut App, x: u16, y: u16, now: u64) -> (r: Action)
    requires
        old(app)@.spans_fit(),
        !on_chart(old(app)@, x as int, y as int),
    ensures
        (final(app)@, r@) == press(old(app)@, x as int, y as int, now),
{
    let spans = app.col_spans();
    let ghost start = app@;
    let mut c: usize = 1;
    while c <= 3
        invariant
            1 <= c <= 4,
            app@ == start,
            start == old(app)@,
            forall|d: int|
                0 <= d < 5 ==> (#[trigger] spans@[d]).0 == start.span(d).0 && spans@[d].1
                    == start.span(d).1,
            forall|d: int| 1 <= d < c ==> !on_edge(start, d, x as int),
            !on_chart(start, x as int, y as int),
        decreases 4 - c,
    {
        let away: i32 = x as i32 - spans[c].1 as i32;
        if -1 <= away && away <= 1 {
            app.drag = Some((c, spans[c].0));
            return Action::Stay;
        }
        c += 1;
    }
    let top: u16 = app.table_area.y;
    if y == top {
        let mut c: usize = 1;
        while c <= 4
            invariant
                1 <= c <= 5,
                app@ == start,
                start == old(app)@,
                y == start.table_area.y,
                edge_hit(start, x as int) is None,
                forall|d: int|
                    0 <= d < 5 ==> (#[trigger] spans@[d]).0 == start.span(d).0 && spans@[d].1
                        == start.span(d).1,
                forall|d: int| 1 <= d < c ==> !in_column(start, d, x as int),
                !on_chart(start, x as int, y as int),
            decreases 5 - c,
        {
            if x >= spans[c].0 && x < spans[c].1 {
                app.active = c;
                return Action::Stay;
            }
            c += 1;
        }
        return Action::Stay;
    }
    if y > top {
        let below: usize = (y - top - 1) as usize;
        match below.checked_add(app.state.offset) {
            Some(k) => {
                if k < app.visible().len() {
                    return click_row(app, k, x, now);
                }
            },
            None => {
                let rows = app.visible();
                assert(rows@.len() == rows.len());
            },
        }
    }
    Action::Stay
}

/// Resizes the column that is being dragged.
fn drag_to(app: &mut App, x: u16)
    requires
        old(app)@.wf(),
    ensures
        final(app)@ == resized(old(app)@, x as int),
{
    match app.drag {
        Some((c, left)) => {
            let ghost start = app@;
            let wide: u16 = app.table_area.width.saturating_sub(6);
            let most: u16 = if wide >= LEAST_WIDTH {
                wide
            } else {
                LEAST_WIDTH
            };
            let want: u16 = x.saturating_sub(left);
            let width: u16 = if want < LEAST_WIDTH {
                LEAST_WIDTH
            } else if want > most {
                most
            } else {
                want
            };
            app.col_w[c] = width;
            assert(app@.col_w =~= resized(start, x as int).col_w);
        },
        None => {},
    }
}

/// Does what the mouse asks for at the time `now`, in nanoseconds, and says what
/// is to be done outside.
pub fn handle_mouse(app: &mut App, m: MouseEvent, now: u64) -> (r: Action)
    requires
        old(app)@.wf(),
        looks_at_columns(old(app)@, m) ==> old(app)@.spans_fit(),
    ensures
        (final(app)@, r@) == mouse_step(old(app)@, m, now),
        final(app)@.wf(),
{
    if app.table_area.height == 0 {
        return Action::Stay;
    }
    let (x, y) = (m.column, m.row);
    match m.kind {
        MouseKind::ScrollUp => {
            let len: usize = app.visible().len();
            app.move_sel(-3, len);
            Action::Stay
        },
        MouseKind::ScrollDown => {
            let len: usize = app.visible().len();
            app.move_sel(3, len);
            Action::Stay
        },
        MouseKind::Down => {
            let area = app.spark_area;
            if area.height > 0 && y >= area.y && (y as u32) < area.y as u32 + area.height as u32
                && x >= area.x {
                click_chart(app, x);
                Action::Stay
            } else {
                press_table(app, x, y, now)
            }
        },
        MouseKind::Drag => {
            drag_to(app, x);
            Action::Stay
        },
        MouseKind::Up => {
            app.drag = None;
            Action::Stay
        },
        MouseKind::Other => Action::Stay,
    }
}

}
