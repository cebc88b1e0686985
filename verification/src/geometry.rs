//! Rectangles on the terminal screen and the few operations on them that the
//! game's layout uses. The operations themselves are those of ratatui; the
//! library holds a rectangle as four plain numbers.

use vstd::prelude::*;

verus! {

/// A rectangle of terminal cells: its top-left corner and its size.
#[derive(Debug, Clone, Copy, PartialEq, Eq, Structural)]
pub struct Area {
    pub x: u16,
    pub y: u16,
    pub width: u16,
    pub height: u16,
}

/// `a + b`, saturating at `u16::MAX`.
pub open spec fn sat_add(a: u16, b: u16) -> u16 {
    if a + b > u16::MAX {
        u16::MAX
    } else {
        (a + b) as u16
    }
}

/// `a - b`, saturating at zero.
pub open spec fn sat_sub(a: u16, b: u16) -> u16 {
    if a >= b {
        (a - b) as u16
    } else {
        0
    }
}

/// `v` restricted to the range `lo..=hi`.
pub open spec fn clamp_int(v: int, lo: int, hi: int) -> int {
    if v < lo {
        lo
    } else if v > hi {
        hi
    } else {
        v
    }
}

/// `a + b` for `i32`, saturating at the bounds of `i32`.
pub open spec fn sat_add_i32(a: int, b: int) -> int {
    clamp_int(a + b, i32::MIN as int, i32::MAX as int)
}

impl Area {
    /// The first column to the right of the area (saturating).
    pub open spec fn right(self) -> u16 {
        sat_add(self.x, self.width)
    }

    /// The first row below the area (saturating).
    pub open spec fn bottom(self) -> u16 {
        sat_add(self.y, self.height)
    }

    /// The cell `(px, py)` lies inside the area.
    pub open spec fn spec_contains(self, px: u16, py: u16) -> bool {
        px >= self.x && px < self.right() && py >= self.y && py < self.bottom()
    }
}

/// The rectangle `Rect::new` builds: the size is cut so that the right and
/// bottom edges stay within `u16`.
pub open spec fn spec_rect_new(x: u16, y: u16, width: u16, height: u16) -> Area {
    Area { x, y, width: (sat_add(x, width) - x) as u16, height: (sat_add(y, height) - y) as u16 }
}

/// The rectangle `Rect::resize` gives: same corner, new size cut to stay
/// within `u16`.
pub open spec fn spec_resize(a: Area, width: u16, height: u16) -> Area {
    Area {
        x: a.x,
        y: a.y,
        width: sat_sub(sat_add(a.x, width), a.x),
        height: sat_sub(sat_add(a.y, height), a.y),
    }
}

/// The rectangle `Rect::offset` gives: moved by `(dx, dy)`, the corner
/// clamped so that the rectangle stays within `u16`.
pub open spec fn spec_offset(a: Area, dx: i32, dy: i32) -> Area {
    Area {
        x: clamp_int(sat_add_i32(a.x as int, dx as int), 0, u16::MAX - a.width) as u16,
        y: clamp_int(sat_add_i32(a.y as int, dy as int), 0, u16::MAX - a.height) as u16,
        width: a.width,
        height: a.height,
    }
}

/// The position `Position::offset` gives: moved by `(dx, dy)`, clamped to
/// the range of `u16`.
pub open spec fn spec_position_offset(px: u16, py: u16, dx: i32, dy: i32) -> (u16, u16) {
    (
        clamp_int(sat_add_i32(px as int, dx as int), 0, u16::MAX as int) as u16,
        clamp_int(sat_add_i32(py as int, dy as int), 0, u16::MAX as int) as u16,
    )
}

/// The inside of a block with a border on all four sides, as
/// `Block::inner` computes it for `Block::bordered()`.
pub open spec fn spec_bordered_inner(a: Area) -> Area {
    let x = if sat_add(a.x, 1) <= a.right() { sat_add(a.x, 1) } else { a.right() };
    let y = if sat_add(a.y, 1) <= a.bottom() { sat_add(a.y, 1) } else { a.bottom() };
    Area { x, y, width: sat_sub(sat_sub(a.width, 1), 1), height: sat_sub(sat_sub(a.height, 1), 1) }
}

/// Where ratatui's layout solver places a rectangle of the given size
/// centred in `area` (`Rect::centered` with two `Constraint::Length`).
pub uninterp spec fn centered_area(area: Area, width: u16, height: u16) -> Area;

/// A rectangle at `(x, y)` of the given size.
///
/// Trusted: calls ratatui's `Rect::new`, which (by its source) cuts width
/// and height so that `x + width` and `y + height` fit in `u16`.
#[verifier::external_body]
pub(crate) fn rect_new(x: u16, y: u16, width: u16, height: u16) -> (r: Area)
    ensures
        r == spec_rect_new(x, y, width, height),
{
    let r = ratatui::layout::Rect::new(x, y, width, height);
    Area { x: r.x, y: r.y, width: r.width, height: r.height }
}

/// The area with its corner kept and a new size.
///
/// Trusted: calls ratatui's `Rect::resize`, whose source computes
/// `x.saturating_add(width).saturating_sub(x)` and the same for the height.
#[verifier::external_body]
pub(crate) fn rect_resize(a: Area, width: u16, height: u16) -> (r: Area)
    ensures
        r == spec_resize(a, width, height),
{
    let r = ratatui::layout::Rect { x: a.x, y: a.y, width: a.width, height: a.height }.resize(ratatui::layout::Size::new(width, height));
    Area { x: r.x, y: r.y, width: r.width, height: r.height }
}

/// The area moved by `(dx, dy)`.
///
/// Trusted: calls ratatui's `Rect::offset`, whose source adds the offset
/// with `i32::saturating_add` and clamps the corner to `0..=u16::MAX - size`.
#[verifier::external_body]
pub(crate) fn rect_offset(a: Area, dx: i32, dy: i32) -> (r: Area)
    ensures
        r == spec_offset(a, dx, dy),
{
    let r = ratatui::layout::Rect { x: a.x, y: a.y, width: a.width, height: a.height }.offset(ratatui::layout::Offset::new(dx, dy));
    Area { x: r.x, y: r.y, width: r.width, height: r.height }
}

/// Whether the cell `(px, py)` is inside the area.
///
/// Trusted: calls ratatui's `Rect::contains`, whose source compares the
/// position with `x`, `right()`, `y` and `bottom()`.
#[verifier::external_body]
pub(crate) fn rect_contains(a: Area, px: u16, py: u16) -> (b: bool)
    ensures
        b == a.spec_contains(px, py),
{
    let r = ratatui::layout::Rect { x: a.x, y: a.y, width: a.width, height: a.height };
    r.contains(ratatui::layout::Position::new(px, py))
}

/// The position `(px, py)` moved by `(dx, dy)`.
///
/// Trusted: calls ratatui's `Position::offset`, whose source adds with
/// `i32::saturating_add` and clamps each coordinate to `0..=u16::MAX`.
#[verifier::external_body]
pub(crate) fn position_offset(px: u16, py: u16, dx: i32, dy: i32) -> (r: (u16, u16))
    ensures
        r == spec_position_offset(px, py, dx, dy),
{
    let p = ratatui::layout::Position::new(px, py).offset(ratatui::layout::Offset::new(dx, dy));
    (p.x, p.y)
}

/// The inside of a rounded, fully bordered block drawn over `a`.
///
/// Trusted: calls ratatui's `Block::inner` on
/// `Block::bordered().border_type(BorderType::Rounded)`, a block with all
/// four borders, no title and no padding; its source moves the left and top
/// edge in by one (not past the right or bottom edge) and takes one cell
/// (saturating) off the size for each border.
#[verifier::external_body]
pub(crate) fn bordered_inner(a: Area) -> (r: Area)
    ensures
        r == spec_bordered_inner(a),
{
    let block = ratatui::widgets::Block::bordered().border_type(ratatui::widgets::BorderType::Rounded);
    let r = block.inner(ratatui::layout::Rect { x: a.x, y: a.y, width: a.width, height: a.height });
    Area { x: r.x, y: r.y, width: r.width, height: r.height }
}

/// A rectangle of the given size centred in `area`.
///
/// Trusted: calls ratatui's `Rect::centered` with two `Constraint::Length`
/// constraints. Its result comes from ratatui's layout solver and is named
/// `centered_area`. Of its size the contract states what the documentation
/// of `Constraint::Length` gives ("the element size is set to the specified
/// amount"): a length that fits into the area is the length of the result.
/// Of its place it states what the source shows: the solver is required to
/// keep every edge between the area's edges (`configure_variable_in_area_constraints`),
/// and rounding the edges to whole cells keeps them there. Where in between
/// it lies is left unsaid.
#[verifier::external_body]
pub(crate) fn centered(area: Area, width: u16, height: u16) -> (r: Area)
    ensures
        r == centered_area(area, width, height),
        width <= area.width ==> r.width == width,
        height <= area.height ==> r.height == height,
        area.x <= r.x,
        r.x + r.width <= area.right(),
        area.y <= r.y,
        r.y + r.height <= area.bottom(),
{
    let a = area;
    let r = ratatui::layout::Rect { x: a.x, y: a.y, width: a.width, height: a.height }.centered(
        ratatui::layout::Constraint::Length(width),
        ratatui::layout::Constraint::Length(height),
    );
    Area { x: r.x, y: r.y, width: r.width, height: r.height }
}

} // verus!
