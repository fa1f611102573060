//! Events: one row of a repository's history.
use crate::text;
use crate::text::{chars_of, contains, digits_of, get_bytes, nth_piece, same};
use vstd::prelude::*;
use vstd::string::*;

verus! {

/// The colors of the screen.
#[derive(Clone, Copy, PartialEq, Eq, Structural, Debug)]
pub enum Color {
    Black,
    Red,
    Green,
    Yellow,
    Blue,
    Magenta,
    Cyan,
    White,
    DarkGray,
}

/// An event.
pub struct Ev {
    /// The day, as `2026-07-20`.
    pub day: String,
    /// The time of day, as `10:18`.
    pub time: String,
    /// The whole time stamp, for sorting.
    pub ts: String,
    pub actor: String,
    /// The kind that the row shows.
    pub label: String,
    /// The branch, or what happened in words.
    pub detail: String,
    pub glyph: char,
    pub color: Color,
    /// What the filter on all columns searches, in lower case.
    pub search: String,
    /// The commits that a push went from and to; empty where there are none.
    pub before: String,
    pub after: String,
    /// The rows of the push's commits, once they have been fetched.
    pub commits: Option<Vec<String>>,
    /// How many commits the push has, once that is known.
    pub commit_count: Option<usize>,
    pub expanded: bool,
}

/// What an event holds.
#[verifier::ext_equal]
pub struct EvView {
    pub day: Seq<char>,
    pub time: Seq<char>,
    pub ts: Seq<char>,
    pub actor: Seq<char>,
    pub label: Seq<char>,
    pub detail: Seq<char>,
    pub glyph: char,
    pub color: Color,
    pub search: Seq<char>,
    pub before: Seq<char>,
    pub after: Seq<char>,
    pub commits: Option<Seq<Seq<char>>>,
    pub commit_count: Option<usize>,
    pub expanded: bool,
}

/// The texts of an optional list of strings.
pub open spec fn opt_texts(o: Option<Vec<String>>) -> Option<Seq<Seq<char>>> {
    match o {
        Some(v) => Some(text::texts(v@)),
        None => None,
    }
}

impl View for Ev {
    type V = EvView;

    open spec fn view(&self) -> EvView {
        EvView {
            day: self.day@,
            time: self.time@,
            ts: self.ts@,
            actor: self.actor@,
            label: self.label@,
            detail: self.detail@,
            glyph: self.glyph,
            color: self.color,
            search: self.search@,
            before: self.before@,
            after: self.after@,
            commits: opt_texts(self.commits),
            commit_count: self.commit_count,
            expanded: self.expanded,
        }
    }
}

/// What a list of events holds.
pub open spec fn views(evs: Seq<Ev>) -> Seq<EvView> {
    evs.map_values(|e: Ev| e@)
}

/// Every event of a list is found by its key.
pub open spec fn all_wf(evs: Seq<EvView>) -> bool {
    forall|k: int| 0 <= k < evs.len() ==> (#[trigger] evs[k]).wf()
}

/// The glyph and the color of a kind of event: those of the first line that
/// applies.
pub open spec fn mark(kind: Seq<char>) -> (char, Color) {
    if text::occurs(kind, "creation"@) || text::occurs(kind, "Create"@) {
        ('✚', Color::Green)
    } else if text::occurs(kind, "deletion"@) || text::occurs(kind, "Delete"@) {
        ('✖', Color::Red)
    } else if text::occurs(kind, "force"@) {
        ('⚡', Color::Yellow)
    } else if text::occurs(kind, "Comment"@) {
        ('✎', Color::Blue)
    } else if text::occurs(kind, "merge"@) || text::occurs(kind, "PullRequest"@) {
        ('⇄', Color::Magenta)
    } else if text::occurs(kind, "Fork"@) {
        ('⑂', Color::Cyan)
    } else if text::occurs(kind, "Watch"@) {
        ('★', Color::Yellow)
    } else if text::occurs(kind, "Issue"@) {
        ('◆', Color::Blue)
    } else if text::occurs(kind, "Release"@) {
        ('⚑', Color::Green)
    } else if text::occurs(kind, "review"@) {
        ('⊙', Color::Magenta)
    } else {
        ('↑', Color::Cyan)
    }
}

/// The word for a review event of a pull request's timeline; none for an event
/// of another kind.
pub open spec fn review_word(event: Seq<char>) -> Option<Seq<char>> {
    if event == "review_requested"@ {
        Some("requested"@)
    } else if event == "review_request_removed"@ {
        Some("unrequested"@)
    } else if event == "review_dismissed"@ {
        Some("dismissed"@)
    } else {
        None
    }
}

/// The text in a byte range, or nothing where there is no such range.
pub open spec fn range_or_empty(s: Seq<char>, from: int, to: int) -> Seq<char> {
    match text::byte_range(s, from, to) {
        Some(t) => t,
        None => seq![],
    }
}

/// Four texts with a space between each and the next.
pub open spec fn spaced(a: Seq<char>, b: Seq<char>, c: Seq<char>, d: Seq<char>) -> Seq<char> {
    a + " "@ + b + " "@ + c + " "@ + d
}

/// The event of the given parts: collapsed, with no commits.
pub open spec fn event_of(
    ts: Seq<char>,
    actor: Seq<char>,
    kind: Seq<char>,
    label: Seq<char>,
    detail: Seq<char>,
    extra: Seq<char>,
) -> EvView {
    EvView {
        day: range_or_empty(ts, 0, 10),
        time: range_or_empty(ts, 11, 16),
        ts,
        actor,
        label,
        detail,
        glyph: mark(kind).0,
        color: mark(kind).1,
        search: text::lower(spaced(label, actor, detail, extra)),
        before: seq![],
        after: seq![],
        commits: None,
        commit_count: None,
        expanded: false,
    }
}

/// A commit id that names a commit: it is there, and not the row of zeros that
/// stands for none.
pub open spec fn real_sha(s: Seq<char>) -> bool {
    exists|i: int| 0 <= i < s.len() && s[i] != '0'
}

/// The issue or pull request number that a detail carries: the digits behind its
/// first `#`, up to the next `#`. Empty where there are none.
pub open spec fn number_in(detail: Seq<char>) -> Seq<char> {
    match text::piece(detail, '#', 1) {
        Some(rest) => text::leading_digits(rest),
        None => seq![],
    }
}

impl EvView {
    /// The event is found by its own key: every word of the key, in lower case,
    /// stands in the search text.
    pub open spec fn wf(self) -> bool {
        forall|k: int|
            0 <= k < text::words(self.key()).len() ==> text::occurs(
                self.search,
                text::lower(#[trigger] text::words(self.key())[k]),
            )
    }

    /// Whether the event is a push whose commits can be compared.
    pub open spec fn can_expand(self) -> bool {
        real_sha(self.before) && real_sha(self.after)
    }

    /// The text of a column: 1 the date, 2 the type, 3 the actor, any other the
    /// detail.
    pub open spec fn column(self, col: int) -> Seq<char> {
        if col == 1 {
            self.day + " "@ + self.time
        } else if col == 2 {
            self.label
        } else if col == 3 {
            self.actor
        } else {
            self.detail
        }
    }

    /// What a filter has to hold to show the thread of this event: the number
    /// that the detail carries, or else the detail.
    pub open spec fn key(self) -> Seq<char> {
        if number_in(self.detail).len() > 0 {
            number_in(self.detail)
        } else {
            self.detail
        }
    }
}

/// The glyph and the color of a kind of event. The order of the lines matters: a
/// comment on an issue is a comment.
pub fn classify(kind: &str) -> (r: (char, Color))
    ensures
        r == mark(kind@),
{
    if contains(kind, "creation") || contains(kind, "Create") {
        ('✚', Color::Green)
    } else if contains(kind, "deletion") || contains(kind, "Delete") {
        ('✖', Color::Red)
    } else if contains(kind, "force") {
        ('⚡', Color::Yellow)
    } else if contains(kind, "Comment") {
        ('✎', Color::Blue)
    } else if contains(kind, "merge") || contains(kind, "PullRequest") {
        ('⇄', Color::Magenta)
    } else if contains(kind, "Fork") {
        ('⑂', Color::Cyan)
    } else if contains(kind, "Watch") {
        ('★', Color::Yellow)
    } else if contains(kind, "Issue") {
        ('◆', Color::Blue)
    } else if contains(kind, "Release") {
        ('⚑', Color::Green)
    } else if contains(kind, "review") {
        ('⊙', Color::Magenta)
    } else {
        ('↑', Color::Cyan)
    }
}

/// The word for a review event of a pull request's timeline, if it is one.
pub fn review_verb(event: &str) -> (r: Option<&'static str>)
    ensures
        match r {
            Some(word) => review_word(event@) == Some(word@),
            None => review_word(event@) is None,
        },
{
    if same(event, "review_requested") {
        Some("requested")
    } else if same(event, "review_request_removed") {
        Some("unrequested")
    } else if same(event, "review_dismissed") {
        Some("dismissed")
    } else {
        None
    }
}

/// The number that a detail carries, as text.
pub fn detail_number(detail: &str) -> (r: String)
    ensures
        r@ == number_in(detail@),
{
    match nth_piece(detail, '#', 1) {
        Some(rest) => digits_of(rest.as_str()),
        None => {
            let r = String::new();
            assert(r@ =~= number_in(detail@));
            r
        },
    }
}

/// Whether a commit id names a commit.
fn names_commit(s: &str) -> (r: bool)
    ensures
        r == real_sha(s@),
{
    let c = chars_of(s);
    let mut i: usize = 0;
    while i < c.len()
        invariant
            c@ == s@,
            i <= c@.len(),
            forall|k: int| 0 <= k < i ==> s@[k] == '0',
        decreases c@.len() - i,
    {
        if c[i] != '0' {
            assert(s@[i as int] != '0');
            return true;
        }
        i += 1;
    }
    false
}

/// The number in a detail stands in it.
proof fn lemma_number_occurs(detail: Seq<char>)
    ensures
        text::occurs(detail, number_in(detail)),
{
    match text::piece(detail, '#', 1) {
        Some(rest) => {
            text::lemma_pieces_occur(detail, '#');
            let n = text::leading_digits(rest);
            text::lemma_leading_digits_prefix(rest);
            assert(rest.subrange(0, n.len() as int) =~= rest.take(n.len() as int));
            assert(text::occurs_at(rest, n, 0));
            let i = choose|i: int| text::occurs_at(detail, rest, i);
            text::lemma_occurs_within(detail, rest, i, n);
        },
        None => {
            assert(detail.subrange(0, 0) =~= Seq::<char>::empty());
            assert(text::occurs_at(detail, number_in(detail), 0));
        },
    }
}

/// An event is found by its key when its search text has the lower case of each
/// part of a text that stands alone in it, and its detail is such a part.
proof fn lemma_found_by_key(e: EvView, all: Seq<char>, at: int)
    requires
        forall|i: int, j: int|
            0 <= i <= j <= all.len() && text::stands_alone(all, i, j) ==> text::occurs(
                e.search,
                #[trigger] text::lower(all.subrange(i, j)),
            ),
        text::word_at(all, at, e.detail),
    ensures
        e.wf(),
{
    let key = e.key();
    let words = text::words(key);
    assert forall|k: int| 0 <= k < words.len() implies text::occurs(
        e.search,
        text::lower(#[trigger] words[k]),
    ) by {
        let w = words[k];
        text::lemma_words_at(key);
        assert(text::word_in(key, w));
        let i = choose|i: int| text::word_at(key, i, w);
        lemma_number_occurs(e.detail);
        if number_in(e.detail).len() > 0 {
            let p = choose|p: int| text::occurs_at(e.detail, key, p);
            let (from, to) = (at + p + i, at + p + i + w.len());
            assert(all.subrange(from, to) =~= w) by {
                assert forall|l: int| 0 <= l < w.len() implies all.subrange(from, to)[l]
                    == #[trigger] w[l] by {
                    assert(key.subrange(i, i + w.len())[l] == w[l]);
                    assert(e.detail.subrange(p, p + key.len())[i + l] == key[i + l]);
                    assert(all.subrange(at, at + e.detail.len())[p + i + l] == e.detail[p + i + l]);
                }
            }
            assert(vstd::utf8::is_ascii_chars(w)) by {
                text::lemma_leading_digits_prefix(text::piece(e.detail, '#', 1)->0);
                assert forall|l: int| 0 <= l < w.len() implies '\0' <= #[trigger] w[l]
                    <= '\u{7f}' by {
                    assert(key.subrange(i, i + w.len())[l] == w[l]);
                    assert(text::digit(key[i + l]));
                }
            }
            assert(text::stands_alone(all, from, to));
            assert(text::occurs(e.search, text::lower(all.subrange(from, to))));
        } else {
            let (from, to) = (at + i, at + i + w.len());
            let n = e.detail.len();
            assert forall|l: int| 0 <= l < n implies all[at + l] == #[trigger] e.detail[l] by {
                assert(all.subrange(at, at + n)[l] == e.detail[l]);
            }
            assert(all.subrange(from, to) =~= w) by {
                assert forall|l: int| 0 <= l < w.len() implies all.subrange(from, to)[l]
                    == #[trigger] w[l] by {
                    assert(key.subrange(i, i + w.len())[l] == w[l]);
                    assert(e.detail[i + l] == w[l]);
                }
            }
            if i > 0 {
                assert(all[from - 1] == e.detail[i - 1]);
            }
            if i + w.len() < n {
                assert(all[to] == e.detail[i + w.len()]);
            }
            assert(text::stands_alone(all, from, to));
            assert(text::occurs(e.search, text::lower(all.subrange(from, to))));
        }
    }
}

impl Ev {
    /// An event from its parts. `extra` is searched but not shown.
    pub fn new(
        ts: String,
        actor: String,
        kind: &str,
        label: String,
        detail: String,
        extra: &str,
    ) -> (r: Ev)
        ensures
            r@ == event_of(ts@, actor@, kind@, label@, detail@, extra@),
            r@.wf(),
    {
        let (glyph, color) = classify(kind);
        let day = match get_bytes(ts.as_str(), 0, 10) {
            Some(t) => t.to_owned(),
            None => String::new(),
        };
        let time = match get_bytes(ts.as_str(), 11, 16) {
            Some(t) => t.to_owned(),
            None => String::new(),
        };
        let mut all = label.clone();
        all.append(" ");
        all.append(actor.as_str());
        all.append(" ");
        all.append(detail.as_str());
        all.append(" ");
        all.append(extra);
        let search = all.as_str().to_lowercase();
        let r = Ev {
            day,
            time,
            ts,
            actor,
            label,
            detail,
            glyph,
            color,
            search,
            before: String::new(),
            after: String::new(),
            commits: None,
            commit_count: None,
            expanded: false,
        };
        assert(r@ =~= event_of(ts@, actor@, kind@, label@, detail@, extra@));
        proof {
            reveal_strlit(" ");
            let front = label@ + " "@ + actor@ + " "@;
            let at = front.len() as int;
            assert(all@ =~= front + detail@ + " "@ + extra@);
            assert(all@.subrange(at, at + detail@.len()) =~= detail@);
            assert(all@[at - 1] == ' ');
            assert(all@[at + detail@.len()] == ' ');
            lemma_found_by_key(r@, all@, at);
        }
        r
    }

    /// Whether the event is a push whose commits can be compared: it needs a real
    /// commit at both ends, and the creation or deletion of a branch lacks one.
    pub fn expandable(&self) -> (r: bool)
        ensures
            r == self@.can_expand(),
    {
        names_commit(self.before.as_str()) && names_commit(self.after.as_str())
    }

    /// The text of a column, for filtering and showing.
    pub fn cell(&self, col: usize) -> (r: String)
        ensures
            r@ == self@.column(col as int),
    {
        if col == 1 {
            let mut t = self.day.clone();
            t.append(" ");
            t.append(self.time.as_str());
            t
        } else if col == 2 {
            self.label.clone()
        } else if col == 3 {
            self.actor.clone()
        } else {
            self.detail.clone()
        }
    }

    /// What to filter by to see the thread of this event.
    pub fn filter_key(&self) -> (r: String)
        ensures
            r@ == self@.key(),
    {
        let number = detail_number(self.detail.as_str());
        if !number.as_str().is_empty() {
            number
        } else {
            self.detail.clone()
        }
    }
}

}
