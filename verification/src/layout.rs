//! Areas of the screen.

use vstd::prelude::*;

verus! {

/// A rectangle of the screen.
#[derive(Clone, Copy, Debug, PartialEq, Eq, Structural)]
pub struct Area {
    pub x: u16,
    pub y: u16,
    pub width: u16,
    pub height: u16,
}

impl Area {
    /// The rectangle does not reach past the largest coordinate.
    pub open spec fn wf(self) -> bool {
        &&& self.x + self.width <= u16::MAX
        &&& self.y + self.height <= u16::MAX
    }
}

/// The height of a row of a layout.
#[derive(Clone, Copy, Debug, PartialEq, Eq, Structural)]
pub enum RowHeight {
    Fixed(u16),
    /// All that the fixed rows leave.
    Rest,
}

/// What the fixed rows take together.
pub open spec fn fixed_total(heights: Seq<RowHeight>) -> int
    decreases heights.len(),
{
    if heights.len() == 0 {
        0
    } else {
        fixed_total(heights.drop_last()) + match heights.last() {
            RowHeight::Fixed(n) => n as int,
            RowHeight::Rest => 0,
        }
    }
}

/// How many rows take the rest.
pub open spec fn rest_rows(heights: Seq<RowHeight>) -> int
    decreases heights.len(),
{
    if heights.len() == 0 {
        0
    } else {
        rest_rows(heights.drop_last()) + match heights.last() {
            RowHeight::Fixed(_) => 0int,
            RowHeight::Rest => 1int,
        }
    }
}

/// The height of row `i` in an area of height `total`.
pub open spec fn height_at(heights: Seq<RowHeight>, total: int, i: int) -> int {
    match heights[i] {
        RowHeight::Fixed(n) => n as int,
        RowHeight::Rest => total - fixed_total(heights),
    }
}

/// Where row `i` starts in an area of height `total`.
pub open spec fn offset_at(heights: Seq<RowHeight>, total: int, i: int) -> int
    decreases i,
{
    if i <= 0 {
        0
    } else {
        offset_at(heights, total, i - 1) + height_at(heights, total, i - 1)
    }
}

/// `ratatui::layout::Layout::split` of a vertical layout, a `Length` for each
/// fixed row and `Min(0)` for the one that takes the rest. Where the fixed
/// rows fit into the area they get their lengths, the other row gets what
/// they leave, and the rows stand below each other over the whole width.
#[verifier::external_body]
fn split_rows(area: Area, heights: &Vec<RowHeight>) -> (r: Vec<Area>)
    requires
        area.wf(),
        rest_rows(heights@) == 1,
        fixed_total(heights@) <= area.height,
    ensures
        r@.len() == heights@.len(),
        forall|i: int|
            0 <= i < r@.len() ==> {
                &&& (#[trigger] r@[i]).x == area.x
                &&& r@[i].width == area.width
                &&& r@[i].y == area.y + offset_at(heights@, area.height as int, i)
                &&& r@[i].height == height_at(heights@, area.height as int, i)
            },
{
    let rows = heights.iter().map(|h| match h {
        RowHeight::Fixed(n) => ratatui::layout::Constraint::Length(*n),
        RowHeight::Rest => ratatui::layout::Constraint::Min(0),
    });
    let Area { x, y, width, height } = area;
    let split = ratatui::layout::Layout::vertical(rows)
        .split(ratatui::layout::Rect { x, y, width, height });
    split.iter().map(|r| Area { x: r.x, y: r.y, width: r.width, height: r.height }).collect()
}

/// The areas around the list: header line, gauge, column header and footer,
/// given up one by one on small screens.
#[derive(Clone, Copy, Debug, PartialEq, Eq, Structural)]
pub struct Chrome {
    pub header: Option<Area>,
    pub gauge: Option<Area>,
    pub colhead: Option<Area>,
    pub rows: Area,
    pub footer: Option<Area>,
}

/// Line `i` of an area.
pub open spec fn line_at(area: Area, i: int) -> Area {
    Area { y: (area.y + i) as u16, height: 1, ..area }
}

/// The part of an area from line `from` to line `to`.
pub open spec fn lines_between(area: Area, from: int, to: int) -> Area {
    Area { y: (area.y + from) as u16, height: (to - from) as u16, ..area }
}

/// The areas around the list.
pub open spec fn chrome_of(area: Area) -> Chrome {
    let h = area.height as int;
    let last = Some(line_at(area, h - 1));
    if h <= 1 {
        Chrome { header: None, gauge: None, colhead: None, rows: area, footer: None }
    } else if h == 2 {
        Chrome {
            header: Some(line_at(area, 0)),
            gauge: None,
            colhead: None,
            rows: lines_between(area, 1, h),
            footer: None,
        }
    } else if h == 3 {
        Chrome {
            header: Some(line_at(area, 0)),
            gauge: None,
            colhead: None,
            rows: lines_between(area, 1, h - 1),
            footer: last,
        }
    } else if h == 4 {
        Chrome {
            header: Some(line_at(area, 0)),
            gauge: None,
            colhead: Some(line_at(area, 1)),
            rows: lines_between(area, 2, h - 1),
            footer: last,
        }
    } else {
        Chrome {
            header: Some(line_at(area, 0)),
            gauge: Some(line_at(area, 1)),
            colhead: Some(line_at(area, 2)),
            rows: lines_between(area, 3, h - 1),
            footer: last,
        }
    }
}

/// Splits the screen: every line but those of the list is one line high, and
/// on small screens the gauge, the column header, the footer and the header
/// go, in this order.
pub fn chrome_layout(area: Area) -> (r: Chrome)
    requires
        area.wf(),
    ensures
        r == chrome_of(area),
{
    let one = RowHeight::Fixed(1);
    let rest = RowHeight::Rest;
    if area.height <= 1 {
        return Chrome { header: None, gauge: None, colhead: None, rows: area, footer: None };
    }
    proof {
        reveal_with_fuel(fixed_total, 6);
        reveal_with_fuel(rest_rows, 6);
        reveal_with_fuel(offset_at, 6);
    }
    if area.height == 2 {
        let heights = vec![one, rest];
        let parts = split_rows(area, &heights);
        return Chrome {
            header: Some(parts[0]),
            gauge: None,
            colhead: None,
            rows: parts[1],
            footer: None,
        };
    }
    if area.height == 3 {
        let heights = vec![one, rest, one];
        let parts = split_rows(area, &heights);
        return Chrome {
            header: Some(parts[0]),
            gauge: None,
            colhead: None,
            rows: parts[1],
            footer: Some(parts[2]),
        };
    }
    if area.height == 4 {
        let heights = vec![one, one, rest, one];
        let parts = split_rows(area, &heights);
        return Chrome {
            header: Some(parts[0]),
            gauge: None,
            colhead: Some(parts[1]),
            rows: parts[2],
            footer: Some(parts[3]),
        };
    }
    let heights = vec![one, one, one, rest, one];
    let parts = split_rows(area, &heights);
    Chrome {
        header: Some(parts[0]),
        gauge: Some(parts[1]),
        colhead: Some(parts[2]),
        rows: parts[3],
        footer: Some(parts[4]),
    }
}

/// The height of the detail log in a list area of height `h`: all of a small
/// one, else three fifths, from 4 lines on.
pub open spec fn detail_height(h: int) -> int {
    if h <= 5 {
        h
    } else if h * 3 / 5 < 4 {
        4
    } else if h * 3 / 5 > h - 1 {
        h - 1
    } else {
        h * 3 / 5
    }
}

/// Splits the list area when the detail log is open: its bottom part becomes
/// the log.
pub fn split_detail(detail_open: bool, list: Area) -> (r: (Area, Option<Area>))
    requires
        list.wf(),
        list.height <= 21845,
    ensures
        !detail_open || list.height == 0 ==> r == (list, None::<Area>),
        detail_open && list.height > 0 ==> {
            let top = list.height - detail_height(list.height as int);
            r == (
                lines_between(list, 0, top),
                Some(lines_between(list, top, list.height as int)),
            )
        },
{
    if !detail_open || list.height == 0 {
        return (list, None);
    }
    let h: u16 = list.height;
    let part: u16 = if h <= 5 {
        h
    } else {
        let share: u16 = h * 3 / 5;
        if share < 4 {
            4
        } else if share > h - 1 {
            h - 1
        } else {
            share
        }
    };
    let heights = vec![RowHeight::Rest, RowHeight::Fixed(part)];
    proof {
        reveal_with_fuel(fixed_total, 3);
        reveal_with_fuel(rest_rows, 3);
        reveal_with_fuel(offset_at, 3);
    }
    let parts = split_rows(list, &heights);
    (parts[0], Some(parts[1]))
}

/// Splits the inside of the detail log: one line about the job, then the log.
pub fn split_meta(inner: Area) -> (r: (Area, Area))
    requires
        inner.wf(),
        inner.height >= 1,
    ensures
        r == (line_at(inner, 0), lines_between(inner, 1, inner.height as int)),
{
    let heights = vec![RowHeight::Fixed(1), RowHeight::Rest];
    proof {
        reveal_with_fuel(fixed_total, 3);
        reveal_with_fuel(rest_rows, 3);
        reveal_with_fuel(offset_at, 3);
    }
    let parts = split_rows(inner, &heights);
    (parts[0], parts[1])
}

pub open spec fn smaller(a: u16, b: u16) -> u16 {
    if a < b {
        a
    } else {
        b
    }
}

/// A rectangle of at most the given size in the middle of an area.
pub fn centered_rect(area: Area, width: u16, height: u16) -> (r: Area)
    requires
        area.wf(),
    ensures
        r.width == smaller(width, area.width),
        r.height == smaller(height, area.height),
        r.x == area.x + (area.width - r.width) / 2,
        r.y == area.y + (area.height - r.height) / 2,
{
    let w: u16 = if width < area.width {
        width
    } else {
        area.width
    };
    let h: u16 = if height < area.height {
        height
    } else {
        area.height
    };
    Area {
        x: area.x + (area.width - w) / 2,
        y: area.y + (area.height - h) / 2,
        width: w,
        height: h,
    }
}

// ---------------------------------------------------------------------------
// Laws
// ---------------------------------------------------------------------------

pub open spec fn lines_of(part: Option<Area>) -> int {
    match part {
        Some(a) => a.height as int,
        None => 0,
    }
}

/// The parts of the screen fill it exactly, and the list keeps a line of its
/// own on every screen that has one to give.
pub proof fn chrome_fills_the_screen(area: Area)
    requires
        area.wf(),
    ensures
        ({
            let c = chrome_of(area);
            &&& lines_of(c.header) + lines_of(c.gauge) + lines_of(c.colhead) + c.rows.height
                + lines_of(c.footer) == area.height
            &&& area.height > 0 ==> c.rows.height > 0
            &&& c.rows.wf()
            &&& c.footer matches Some(f) ==> f.y + 1 == area.y + area.height
        }),
{
}

/// The parts stand below each other over the whole width, from the top of the
/// screen down: header, gauge, column header, list, footer.
pub proof fn parts_stand_below_each_other(area: Area)
    requires
        area.wf(),
        area.height >= 5,
    ensures
        ({
            let c = chrome_of(area);
            &&& c.header == Some(Area { x: area.x, y: area.y, width: area.width, height: 1 })
            &&& c.gauge matches Some(g) && g.x == area.x && g.y == area.y + 1 && g.width
                == area.width && g.height == 1
            &&& c.colhead matches Some(h) && h.x == area.x && h.y == area.y + 2 && h.width
                == area.width && h.height == 1
            &&& c.rows.x == area.x && c.rows.y == area.y + 3 && c.rows.width == area.width
                && c.rows.height == area.height - 4
            &&& c.footer matches Some(f) && f.x == area.x && f.y == area.y + area.height - 1
                && f.width == area.width && f.height == 1
        }),
{
}

/// On small screens the gauge goes first, then the column header, the footer
/// and the header.
pub proof fn small_screens_keep_the_list(area: Area)
    requires
        area.wf(),
    ensures
        ({
            let c = chrome_of(area);
            &&& c.gauge is Some <==> area.height >= 5
            &&& c.colhead is Some <==> area.height >= 4
            &&& c.footer is Some <==> area.height >= 3
            &&& c.header is Some <==> area.height >= 2
            &&& area.height <= 1 ==> c.rows == area
        }),
{
}

/// The detail log takes all of a small list area, else three fifths of it, and
/// at least four lines.
pub proof fn the_detail_log_takes_three_fifths(h: int)
    requires
        h >= 0,
    ensures
        h <= 5 ==> detail_height(h) == h,
        h > 5 ==> detail_height(h) >= 4 && detail_height(h) < h,
        h > 7 ==> 5 * detail_height(h) <= 3 * h && 5 * (detail_height(h) + 1) > 3 * h,
{
}

/// A line of an area and a stretch of its lines stand where they are counted
/// from its top, over its whole width.
pub proof fn lines_are_counted_from_the_top(area: Area, from: int, to: int)
    requires
        area.wf(),
        0 <= from <= to <= area.height,
    ensures
        line_at(area, from).x == area.x && line_at(area, from).width == area.width,
        from < area.height ==> line_at(area, from).y == area.y + from,
        line_at(area, from).height == 1,
        lines_between(area, from, to).x == area.x && lines_between(area, from, to).width
            == area.width,
        lines_between(area, from, to).y == area.y + from,
        lines_between(area, from, to).height == to - from,
{
}

/// The smaller of two sizes is one of them, and no larger than the other.
pub proof fn the_smaller_size_fits_both(a: u16, b: u16)
    ensures
        smaller(a, b) <= a,
        smaller(a, b) <= b,
        smaller(a, b) == a || smaller(a, b) == b,
{
}

} // verus!
