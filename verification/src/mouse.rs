//! Mouse geometry and double clicks.
use vstd::prelude::*;

verus! {

/// A rectangle of terminal cells.
#[derive(Debug, Clone, Copy, PartialEq, Eq, Structural)]
pub struct Rect {
    pub x: u16,
    pub y: u16,
    pub width: u16,
    pub height: u16,
}

/// The time within which a second click on a cell makes a double click, in
/// nanoseconds.
pub const DOUBLE_CLICK_WINDOW: u64 = 400_000_000;

/// Whether a cell lies in a rectangle. The right and bottom edges are outside.
pub open spec fn inside(rect: Rect, col: u16, row: u16) -> bool {
    rect.x <= col < rect.x + rect.width && rect.y <= row < rect.y + rect.height
}

/// The edges that are compared with a cell are numbers of cells.
pub open spec fn edges_fit(rect: Rect, col: u16, row: u16) -> bool {
    &&& col >= rect.x ==> rect.x + rect.width <= u16::MAX
    &&& rect.x <= col < rect.x + rect.width && row >= rect.y ==> rect.y + rect.height <= u16::MAX
}

/// Whether a cell lies in a rectangle.
pub fn point_in(rect: Rect, col: u16, row: u16) -> (yes: bool)
    requires
        edges_fit(rect, col, row),
    ensures
        yes == inside(rect, col, row),
{
    col >= rect.x && col < rect.x + rect.width && row >= rect.y && row < rect.y + rect.height
}

/// The list row that a click hits, given the area inside the border and the
/// first row on screen; `None` outside the area.
pub fn list_row_index(inner: Rect, offset: usize, col: u16, row: u16) -> (index: Option<usize>)
    requires
        edges_fit(inner, col, row),
        inside(inner, col, row) ==> offset + (row - inner.y) <= usize::MAX,
    ensures
        index == (if inside(inner, col, row) {
            Some((offset + (row - inner.y)) as usize)
        } else {
            None
        }),
{
    if !point_in(inner, col, row) {
        return None;
    }
    Some(offset + (row - inner.y) as usize)
}

/// A coordinate for something of size `size` near `anchor`, pulled back so that
/// it ends within `limit`, and to the edge where it is too large.
pub open spec fn pulled(anchor: u16, size: u16, limit: u16) -> int {
    let last = if limit >= size {
        limit - size
    } else {
        0
    };
    if anchor <= last {
        anchor as int
    } else {
        last
    }
}

fn pull(anchor: u16, size: u16, limit: u16) -> (at: u16)
    ensures
        at == pulled(anchor, size, limit),
{
    let last: u16 = if limit >= size {
        limit - size
    } else {
        0
    };
    if anchor <= last {
        anchor
    } else {
        last
    }
}

/// The top left corner of a popup of size `w` by `h` opened at `anchor`, pulled
/// back from the edges of the screen.
pub fn clamp_menu_pos(anchor: (u16, u16), w: u16, h: u16, screen: (u16, u16)) -> (at: (u16, u16))
    ensures
        at.0 == pulled(anchor.0, w, screen.0),
        at.1 == pulled(anchor.1, h, screen.1),
{
    (pull(anchor.0, w, screen.0), pull(anchor.1, h, screen.1))
}

/// An earlier click. The time is in nanoseconds.
#[derive(Debug, Clone, Copy, PartialEq, Eq, Structural)]
pub struct LastClick {
    pub col: u16,
    pub row: u16,
    pub at: u64,
}

/// Whether a click follows an earlier one on the same cell within a window.
pub fn is_double_click(prev: Option<LastClick>, col: u16, row: u16, now: u64, window: u64) -> (yes: bool)
    ensures
        yes == (prev matches Some(p) && p.col == col && p.row == row && now - p.at <= window),
{
    match prev {
        Some(p) => p.col == col && p.row == row && (now < p.at || now - p.at <= window),
        None => false,
    }
}

/// A popup that fits the screen lies on it whole, and stays at its anchor
/// where it fits there.
pub proof fn law_menu_stays_on_screen(anchor: u16, size: u16, limit: u16)
    requires
        size <= limit,
    ensures
        0 <= pulled(anchor, size, limit),
        pulled(anchor, size, limit) + size <= limit,
        anchor + size <= limit ==> pulled(anchor, size, limit) == anchor,
{
}

/// A cell lies in a rectangle exactly if it is one of its columns and one of its
/// rows, counted from the top left corner.
pub proof fn law_cells_of_a_rectangle(rect: Rect, col: u16, row: u16)
    ensures
        inside(rect, col, row) <==> 0 <= col - rect.x < rect.width && 0 <= row - rect.y < rect.height,
        rect.width > 0 && rect.height > 0 ==> inside(rect, rect.x, rect.y),
{
}

/// A popup is pulled back no further than it has to be, and one that is too large
/// starts at the edge. A double click is two within 400 milliseconds.
pub proof fn law_popups_are_pulled_back(anchor: u16, size: u16, limit: u16)
    ensures
        size > limit ==> pulled(anchor, size, limit) == 0,
        size <= limit && anchor + size > limit ==> pulled(anchor, size, limit) == limit - size,
        anchor + size <= limit ==> pulled(anchor, size, limit) == anchor,
        DOUBLE_CLICK_WINDOW == 400_000_000,
{
}

} // verus!
