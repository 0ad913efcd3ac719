//! Screen geometry of the dashboard: clickable button areas, the minimum
//! terminal size, the scrolled window of the screensaver list, the header
//! buttons and the rows of the help overlay.

use vstd::prelude::*;
use crate::text::{padded, pad_right, wrap_text, wrapped};

verus! {

/// A one-row clickable area: row `y`, columns `x_start` up to but not
/// including `x_end`.
#[derive(Clone, Copy, Debug, PartialEq, Eq, Structural)]
pub struct ButtonRect {
    pub y: u16,
    pub x_start: u16,
    pub x_end: u16,
}

impl ButtonRect {
    /// The area on row `y` from column `x_start` up to `x_end`.
    pub fn new(y: u16, x_start: u16, x_end: u16) -> (r: ButtonRect)
        ensures
            r == (ButtonRect { y, x_start, x_end }),
    {
        ButtonRect { y, x_start, x_end }
    }

    /// Whether the cell at row `y`, column `x` lies in the area.
    pub fn contains(&self, y: u16, x: u16) -> (r: bool)
        ensures
            r == (y == self.y && self.x_start <= x && x < self.x_end),
    {
        y == self.y && x >= self.x_start && x < self.x_end
    }
}

/// `n / 96` rounded to the nearest integer, halves up.
pub open spec fn per_96_rounded(n: int) -> int {
    (n + 48) / 96
}

/// `n` capped at the largest `u16`.
pub open spec fn cap_u16(n: int) -> int {
    if n > 0xFFFF {
        0xFFFF
    } else {
        n
    }
}

/// The smallest terminal (columns, rows) the dashboard fits in at `dpi`:
/// 60 by 25 at 96 DPI, scaled in proportion and rounded.
pub fn recommended_min_size(dpi: u32) -> (r: (u16, u16))
    ensures
        r.0 == cap_u16(per_96_rounded(60 * dpi)),
        r.1 == cap_u16(per_96_rounded(25 * dpi)),
{
    let w: u64 = (60 * (dpi as u64) + 48) / 96;
    let h: u64 = (25 * (dpi as u64) + 48) / 96;
    let w16: u16 = if w > 0xFFFF { 0xFFFF } else { w as u16 };
    let h16: u16 = if h > 0xFFFF { 0xFFFF } else { h as u16 };
    (w16, h16)
}

/// `x` moved into `lo..=hi` (to `hi` when it lies above, to `lo` when it
/// lies below).
pub open spec fn clamped(x: int, lo: int, hi: int) -> int {
    if x > hi {
        hi
    } else if x < lo {
        lo
    } else {
        x
    }
}

/// The list's scroll offset: the offset nearest to `offset` whose
/// `visible` rows show the selected position, but no later than the last
/// offset that fills the rows (`total - visible`, or 0).
pub open spec fn scrolled_offset(selected: int, offset: int, visible: int, total: int) -> int {
    let shown = clamped(offset, selected - visible + 1, selected);
    let last = if total > visible { total - visible } else { 0 };
    if shown < last { shown } else { last }
}

/// The scrolled list window: the new offset, and the first and one past the
/// last list positions shown, for `visible` rows and `total` entries.
pub fn list_window(selected: usize, offset: usize, visible: usize, total: usize) -> (r: (
    usize,
    usize,
    usize,
))
    requires
        selected < total,
        offset + visible <= usize::MAX,
        total + visible <= usize::MAX,
    ensures
        r.0 == scrolled_offset(selected as int, offset as int, visible as int, total as int),
        r.1 == r.0,
        r.2 == if r.0 + visible < total {
            r.0 + visible
        } else {
            total as int
        },
{
    let mut o = offset;
    if selected < o {
        o = selected;
    } else if selected >= o + visible {
        o = selected - visible + 1;
    }
    if o + visible > total {
        o = total.saturating_sub(visible);
    }
    let end = if o + visible < total {
        o + visible
    } else {
        total
    };
    (o, o, end)
}

/// With at least one row shown, the selected entry lies in the window, the
/// window holds at most `visible` entries and ends within the list.
pub proof fn lemma_list_window_shows_selected(selected: int, offset: int, visible: int, total: int)
    requires
        0 <= selected < total,
        0 <= offset,
        1 <= visible,
    ensures
        ({
            let o = scrolled_offset(selected, offset, visible, total);
            let end = if o + visible < total { o + visible } else { total };
            &&& 0 <= o <= selected < end <= total
            &&& end - o <= visible
        }),
{
}

/// The list position of the highlighted entry among the shown ones: the
/// first position holding `highlighted`, or 0.
pub fn selected_position(indices: &[usize], highlighted: usize) -> (r: usize)
    ensures
        (exists|i: int| 0 <= i < indices@.len() && indices@[i] == highlighted) ==> {
            &&& r < indices@.len()
            &&& indices@[r as int] == highlighted
            &&& forall|j: int| 0 <= j < r ==> indices@[j] != highlighted
        },
        !(exists|i: int| 0 <= i < indices@.len() && indices@[i] == highlighted) ==> r == 0,
{
    let mut i: usize = 0;
    while i < indices.len()
        invariant
            i <= indices@.len(),
            forall|j: int| 0 <= j < i ==> indices@[j] != highlighted,
        decreases indices@.len() - i,
    {
        if indices[i] == highlighted {
            return i;
        }
        i = i + 1;
    }
    0
}

/// Where the header's help and quit buttons stand, as (row, first column,
/// column past the end), for a header box at column `x`, row `y`, of
/// `width` columns, whose text before the buttons is made of parts of
/// `left_len` columns in all. When the inner width leaves room, the buttons
/// are pushed to the right edge; else they follow the text after a separator.
pub open spec fn header_help_offset(width: int, left_len: int) -> int {
    let inner = if width >= 2 { width - 2 } else { 0 };
    if inner > left_len + 15 {
        1 + inner - 15
    } else {
        1 + left_len + 3
    }
}

/// The help and quit button areas of the header (see `header_help_offset`).
pub fn header_button_bounds(x: u16, y: u16, width: u16, left_len: usize) -> (r: (
    ButtonRect,
    ButtonRect,
))
    requires
        y < 0xFFFF,
        left_len + 19 <= usize::MAX,
        x + header_help_offset(width as int, left_len as int) + 9 + 6 <= 0xFFFF,
    ensures
        r.0 == (ButtonRect {
            y: (y + 1) as u16,
            x_start: (x + header_help_offset(width as int, left_len as int)) as u16,
            x_end: (x + header_help_offset(width as int, left_len as int) + 6) as u16,
        }),
        r.1 == (ButtonRect {
            y: (y + 1) as u16,
            x_start: (x + header_help_offset(width as int, left_len as int) + 9) as u16,
            x_end: (x + header_help_offset(width as int, left_len as int) + 15) as u16,
        }),
{
    let button_y = y + 1;
    let inner_width = width.saturating_sub(2) as usize;
    let help_offset: usize = if inner_width > 15 && inner_width - 15 > left_len {
        1 + (inner_width - 15)
    } else {
        1 + left_len + 3
    };
    let help_start = x + help_offset as u16;
    let quit_start = x + (help_offset + 9) as u16;
    (ButtonRect::new(button_y, help_start, help_start + 6), ButtonRect::new(button_y, quit_start, quit_start + 6))
}

/// Columns left for a description in the help overlay of `area_width`
/// columns: the border, an 18-column key column and ": " taken away.
pub fn help_desc_width(area_width: u16) -> (r: usize)
    ensures
        r == if area_width >= 22 { area_width - 22 } else { 0 },
{
    let inner = area_width.saturating_sub(2) as usize;
    inner.saturating_sub(18).saturating_sub(2)
}

/// One row of the help overlay: the key column, the separator after it,
/// and a piece of the description.
#[derive(Clone, Debug, PartialEq, Eq)]
pub struct HelpRow {
    pub key: String,
    pub sep: String,
    pub desc: String,
}

impl View for HelpRow {
    type V = (Seq<char>, Seq<char>, Seq<char>);

    open spec fn view(&self) -> (Seq<char>, Seq<char>, Seq<char>) {
        (self.key@, self.sep@, self.desc@)
    }
}

/// Width of the key column of the help overlay.
pub open spec fn key_col() -> nat {
    18
}

/// The rows of one help entry: the description wrapped to `width`, the
/// key (padded to the key column) and ": " before its first piece, blanks
/// and two spaces before the others; an empty description gives one row.
pub open spec fn help_rows(key: Seq<char>, desc: Seq<char>, width: nat) -> Seq<
    (Seq<char>, Seq<char>, Seq<char>),
> {
    let ds = wrapped(desc, width);
    if ds.len() == 0 {
        seq![(padded(key, key_col()), seq![':', ' '], seq![])]
    } else {
        Seq::new(
            ds.len(),
            |i: int|
                if i == 0 {
                    (padded(key, key_col()), seq![':', ' '], ds[0])
                } else {
                    (Seq::new(key_col(), |j: int| ' '), seq![' ', ' '], ds[i])
                },
        )
    }
}

/// The rows of one entry of the help overlay, its description wrapped to
/// `max_desc_width` columns.
pub fn format_help_row(key: &str, desc: &str, max_desc_width: usize) -> (r: Vec<HelpRow>)
    ensures
        r@.map_values(|h: HelpRow| h@) == help_rows(key@, desc@, max_desc_width as nat),
{
    let ds = wrap_text(desc, max_desc_width);
    let ghost spec_rows = help_rows(key@, desc@, max_desc_width as nat);
    let mut r: Vec<HelpRow> = Vec::new();
    if ds.len() == 0 {
        let row = HelpRow {
            key: pad_right(key, 18),
            sep: crate::chars::from_chars(&[':', ' ']),
            desc: String::new(),
        };
        r.push(row);
        assert(r@.map_values(|h: HelpRow| h@) =~= spec_rows);
        return r;
    }
    let blank_key = pad_right("", 18);
    proof {
        reveal_strlit("");
        assert(blank_key@ =~= Seq::new(key_col(), |j: int| ' '));
    }
    let mut i: usize = 0;
    while i < ds.len()
        invariant
            i <= ds@.len(),
            ds.deep_view() == wrapped(desc@, max_desc_width as nat),
            ds@.len() > 0,
            spec_rows == help_rows(key@, desc@, max_desc_width as nat),
            blank_key@ == Seq::new(key_col(), |j: int| ' '),
            r@.map_values(|h: HelpRow| h@) == spec_rows.take(i as int),
        decreases ds@.len() - i,
    {
        let d = ds[i].clone();
        assert(d@ == ds.deep_view()[i as int]);
        let row = if i == 0 {
            HelpRow { key: pad_right(key, 18), sep: crate::chars::from_chars(&[':', ' ']), desc: d }
        } else {
            HelpRow { key: blank_key.clone(), sep: crate::chars::from_chars(&[' ', ' ']), desc: d }
        };
        let ghost old_r = r@.map_values(|h: HelpRow| h@);
        r.push(row);
        assert(r@.map_values(|h: HelpRow| h@) =~= old_r.push(row@));
        i = i + 1;
        assert(spec_rows.take(i as int) =~= spec_rows.take(i - 1).push(spec_rows[i - 1]));
    }
    assert(spec_rows.take(i as int) =~= spec_rows);
    r
}

/// A screen area: top-left column and row, width and height in cells.
#[derive(Clone, Copy, Debug, PartialEq, Eq, Structural)]
pub struct Rect {
    pub x: u16,
    pub y: u16,
    pub width: u16,
    pub height: u16,
}

/// What ratatui's `Layout` gives as the middle part (x, y, width, height)
/// when it splits the area at `x`, `y` of `width` by `height`, vertically
/// or horizontally, into percentages `side`, `mid`, `side`.
pub uninterp spec fn layout_middle(vertical: bool, side: u16, mid: u16, x: u16, y: u16, width: u16, height: u16) -> (
    u16,
    u16,
    u16,
    u16,
);

/// The middle part of `area` split by ratatui's `Layout` into three parts
/// of `side`, `mid` and `side` percent, in rows when `vertical`, else in
/// columns. The result is named by `layout_middle`.
#[verifier::external_body]
fn split_middle(vertical: bool, side: u16, mid: u16, area: Rect) -> (r: Rect)
    ensures
        (r.x, r.y, r.width, r.height) == layout_middle(vertical, side, mid, area.x, area.y, area.width, area.height),
{
    let direction = if vertical { ratatui::layout::Direction::Vertical } else { ratatui::layout::Direction::Horizontal };
    let parts = ratatui::layout::Layout::default()
        .direction(direction)
        .constraints([
            ratatui::layout::Constraint::Percentage(side),
            ratatui::layout::Constraint::Percentage(mid),
            ratatui::layout::Constraint::Percentage(side),
        ])
        .split(ratatui::layout::Rect::new(area.x, area.y, area.width, area.height));
    Rect { x: parts[1].x, y: parts[1].y, width: parts[1].width, height: parts[1].height }
}

/// The area `percent_x` wide and `percent_y` high in the middle of `r`:
/// the middle of three rows of (100 - `percent_y`) / 2, `percent_y` and
/// (100 - `percent_y`) / 2 percent, then the middle of three such columns.
pub open spec fn centered(percent_x: u16, percent_y: u16, r: Rect) -> Rect {
    let rows = layout_middle(true, ((100 - percent_y) / 2) as u16, percent_y, r.x, r.y, r.width, r.height);
    let cols = layout_middle(false, ((100 - percent_x) / 2) as u16, percent_x, rows.0, rows.1, rows.2, rows.3);
    Rect { x: cols.0, y: cols.1, width: cols.2, height: cols.3 }
}

/// A popup area of `percent_x` by `percent_y` percent centred in `r`.
pub fn centered_rect(percent_x: u16, percent_y: u16, r: Rect) -> (c: Rect)
    requires
        percent_x <= 100,
        percent_y <= 100,
    ensures
        c == centered(percent_x, percent_y, r),
{
    let rows = split_middle(true, (100 - percent_y) / 2, percent_y, r);
    split_middle(false, (100 - percent_x) / 2, percent_x, rows)
}

} // verus!
