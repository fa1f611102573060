//! Areas of the screen, and how `ratatui` divides them.
use ratatui::layout::{Constraint, Layout};
use ratatui::widgets::{Block, Borders};
use vstd::prelude::*;

verus! {

/// A rectangle of cells.
#[derive(Clone, Copy, PartialEq, Eq, Structural, Debug)]
pub struct Rect {
    pub x: u16,
    pub y: u16,
    pub width: u16,
    pub height: u16,
}

impl Rect {
    /// The column just past the right edge.
    pub open spec fn right(self) -> int {
        self.x + self.width
    }

    /// The row just past the bottom edge.
    pub open spec fn bottom(self) -> int {
        self.y + self.height
    }

    /// The edges lie where a cell's coordinates can.
    pub open spec fn fits(self) -> bool {
        self.right() <= u16::MAX && self.bottom() <= u16::MAX
    }

    /// The rectangle lies in the rows of `area`, over its whole width.
    pub open spec fn is_band_of(self, area: Rect) -> bool {
        &&& self.x == area.x
        &&& self.width == area.width
        &&& area.y <= self.y
        &&& self.bottom() <= area.bottom()
    }

    /// A rectangle from its corner and its size.
    pub fn new(x: u16, y: u16, width: u16, height: u16) -> (r: Rect)
        ensures
            r == (Rect { x, y, width, height }),
    {
        Rect { x, y, width, height }
    }
}

/// Four parts of the screen, from the top down.
#[derive(Clone, Copy, PartialEq, Eq, Structural, Debug)]
pub struct Chunks {
    pub title: Rect,
    pub chart: Rect,
    pub table: Rect,
    pub footer: Rect,
}

/// The heights of the parts of the screen; that of the table is its least.
#[derive(Clone, Copy, PartialEq, Eq, Structural, Debug)]
pub struct Heights {
    pub title: u16,
    pub chart: u16,
    pub table: u16,
    pub footer: u16,
}

impl Heights {
    /// The rows that the parts other than the table take.
    pub open spec fn fixed(self) -> int {
        self.title + self.chart + self.footer
    }
}

/// The rows of `area` from `top` on, `height` of them.
pub open spec fn band(area: Rect, top: int, height: int) -> Rect {
    Rect { x: area.x, y: (area.y + top) as u16, width: area.width, height: height as u16 }
}

/// The parts of a screen that is high enough for all of them: each has its height,
/// and the table has the rest.
pub open spec fn roomy_chunks(area: Rect, h: Heights) -> Chunks {
    Chunks {
        title: band(area, 0, h.title as int),
        chart: band(area, h.title as int, h.chart as int),
        table: band(area, h.title + h.chart, area.height - h.fixed()),
        footer: band(area, area.height - h.footer, h.footer as int),
    }
}

/// The parts stand one below the other, from the top of `area` to its bottom, over
/// its whole width.
pub open spec fn stacked(c: Chunks, area: Rect) -> bool {
    &&& c.title.is_band_of(area)
    &&& c.chart.is_band_of(area)
    &&& c.table.is_band_of(area)
    &&& c.footer.is_band_of(area)
    &&& c.title.y == area.y
    &&& c.chart.y == c.title.bottom()
    &&& c.table.y == c.chart.bottom()
    &&& c.footer.y == c.table.bottom()
    &&& c.footer.bottom() == area.bottom()
}

/// No part but the table is higher than its height.
pub open spec fn within(c: Chunks, h: Heights) -> bool {
    &&& c.title.height <= h.title
    &&& c.chart.height <= h.chart
    &&& c.footer.height <= h.footer
}

/// `ratatui`'s `Layout::split`, down the screen, by the constraints `Length`,
/// `Length`, `Min` and `Length`. The parts fill the area one below the other. Where
/// there are rows enough for all, every part gets its height and the third the rest.
/// Where there are fewer, a `Min` comes before a `Length`: the third part has its
/// least height, and the others share what is left, none with more than its height.
/// How they share it is not stated: that hangs on the solver's weakest weights, and
/// where those leave a tie, on the order in which it walks its hash maps.
#[verifier::external_body]
pub(crate) fn split(area: Rect, h: Heights) -> (r: Chunks)
    requires
        area.fits(),
        h.table <= i16::MAX,
    ensures
        stacked(r, area),
        h.table <= area.height < h.fixed() + h.table ==> r.table.height == h.table && within(r, h),
        h.fixed() + h.table <= area.height ==> r == roomy_chunks(area, h),
{
    let limits = [
        Constraint::Length(h.title),
        Constraint::Length(h.chart),
        Constraint::Min(h.table),
        Constraint::Length(h.footer),
    ];
    let whole = ratatui::layout::Rect { x: area.x, y: area.y, width: area.width, height: area.height };
    let parts = Layout::vertical(limits).split(whole);
    let part = |i: usize| Rect::new(parts[i].x, parts[i].y, parts[i].width, parts[i].height);
    Chunks { title: part(0), chart: part(1), table: part(2), footer: part(3) }
}

/// The inside of a border around `area`.
pub open spec fn inside(area: Rect) -> Rect {
    Rect {
        x: (if area.width > 0 {
            area.x + 1
        } else {
            area.x as int
        }) as u16,
        y: (if area.height > 0 {
            area.y + 1
        } else {
            area.y as int
        }) as u16,
        width: (if area.width > 2 {
            area.width - 2
        } else {
            0
        }) as u16,
        height: (if area.height > 2 {
            area.height - 2
        } else {
            0
        }) as u16,
    }
}

/// `ratatui`'s `Block::inner` of a block with borders on all sides, no title and
/// no padding: one cell less on each side, as far as there are cells.
#[verifier::external_body]
pub(crate) fn inner(area: Rect) -> (r: Rect)
    requires
        area.fits(),
    ensures
        r == inside(area),
{
    let whole = ratatui::layout::Rect { x: area.x, y: area.y, width: area.width, height: area.height };
    let r = Block::default().borders(Borders::ALL).inner(whole);
    Rect::new(r.x, r.y, r.width, r.height)
}

}
