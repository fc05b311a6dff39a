//! The split of the screen into the list, the detail pane and the footer.
use vstd::prelude::*;
use ratatui::layout::{Constraint, Direction, Layout, Rect};

verus! {

/// A rectangle of terminal cells.
#[derive(Clone, Copy, Debug, PartialEq, Eq, Structural)]
pub struct Region {
    pub x: u16,
    pub y: u16,
    pub width: u16,
    pub height: u16,
}

/// The direction in which a region is cut.
#[derive(Clone, Copy, Debug, PartialEq, Eq, Structural)]
pub enum Axis {
    Rows,
    Columns,
}

/// How much of a region one part asks for.
#[derive(Clone, Copy, Debug, PartialEq, Eq, Structural)]
pub enum Size {
    Fill(u16),
    Length(u16),
    Percentage(u16),
    Min(u16),
}

/// The parts `Layout::split` cuts `area` into.
pub uninterp spec fn layout_split(area: Region, axis: Axis, margin: u16, sizes: Seq<Size>) -> Seq<Region>;

/// The three cuts the screen is made of. For each, the solver's strengths
/// leave a single optimum, so the result depends on the area alone; other
/// mixes of sizes may leave several, and which one comes out is not fixed.
pub open spec fn fixed_layout(axis: Axis, margin: u16, sizes: Seq<Size>) -> bool {
    ||| axis == Axis::Rows && margin == 1 && sizes == body_sizes()
    ||| axis == Axis::Columns && margin == 0 && sizes == column_sizes()
    ||| axis == Axis::Rows && margin == 0 && sizes == footer_sizes()
}

/// Relies on ratatui's `Layout::split`: cuts `area`, less a margin on every
/// side, along `axis` into one part per size, in order. Only the cuts of
/// `fixed_layout` are asked for.
#[verifier::external_body]
fn split(area: Region, axis: Axis, margin: u16, sizes: &Vec<Size>) -> (r: Vec<Region>)
    requires
        fixed_layout(axis, margin, sizes@),
    ensures
        r@ == layout_split(area, axis, margin, sizes@),
        r@.len() == sizes@.len(),
{
    let direction = match axis { Axis::Rows => Direction::Vertical, Axis::Columns => Direction::Horizontal };
    let constraints = sizes.iter().map(|s| match *s {
        Size::Fill(n) => Constraint::Fill(n),
        Size::Length(n) => Constraint::Length(n),
        Size::Percentage(n) => Constraint::Percentage(n),
        Size::Min(n) => Constraint::Min(n),
    });
    let rect = Rect { x: area.x, y: area.y, width: area.width, height: area.height };
    let parts = Layout::new(direction, constraints).margin(margin).split(rect);
    parts.iter().map(|p| Region { x: p.x, y: p.y, width: p.width, height: p.height }).collect()
}

/// The three regions of the screen.
#[derive(Clone, Copy, Debug, PartialEq, Eq, Structural)]
pub struct Regions {
    pub list: Region,
    pub detail: Region,
    pub footer: Region,
}

pub open spec fn body_sizes() -> Seq<Size> {
    seq![Size::Fill(1), Size::Length(1)]
}

pub open spec fn column_sizes() -> Seq<Size> {
    seq![Size::Percentage(40), Size::Percentage(60)]
}

pub open spec fn footer_sizes() -> Seq<Size> {
    seq![Size::Percentage(100), Size::Min(1)]
}

/// Inside a margin of one cell: a body above a footer of one row; the body
/// holds the list in two fifths of its width and the detail pane in the rest.
pub open spec fn screen_regions(area: Region) -> Regions {
    let rows = layout_split(area, Axis::Rows, 1, body_sizes());
    let columns = layout_split(rows[0], Axis::Columns, 0, column_sizes());
    Regions { list: columns[0], detail: columns[1], footer: rows[1] }
}

/// The row of the footer region in which the key bindings stand: its last.
pub open spec fn footer_row(area: Region) -> Region {
    layout_split(area, Axis::Rows, 0, footer_sizes())[1]
}

pub fn split_screen(area: Region) -> (r: Regions)
    ensures
        r == screen_regions(area),
{
    let rows = split(area, Axis::Rows, 1, &vec![Size::Fill(1), Size::Length(1)]);
    assert(rows@ == layout_split(area, Axis::Rows, 1, body_sizes()));
    let columns = split(rows[0], Axis::Columns, 0, &vec![Size::Percentage(40), Size::Percentage(60)]);
    assert(columns@ == layout_split(rows@[0], Axis::Columns, 0, column_sizes()));
    Regions { list: columns[0], detail: columns[1], footer: rows[1] }
}

pub fn split_footer(area: Region) -> (r: Region)
    ensures
        r == footer_row(area),
{
    let rows = split(area, Axis::Rows, 0, &vec![Size::Percentage(100), Size::Min(1)]);
    assert(rows@ == layout_split(area, Axis::Rows, 0, footer_sizes()));
    rows[1]
}

} // verus!
