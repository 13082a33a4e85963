//! The page geometry of a transcript format.
use vstd::prelude::*;

verus! {

/// Coordinates count thousandths of a point.
pub const UNITS_PER_POINT: i64 = 1000;

/// Bottom edge of the print region.
pub const DEFAULT_MARGIN_BOTTOM_Y: i64 = 27 * UNITS_PER_POINT;

/// Top and right edges of the print region: far beyond any page.
pub const DEFAULT_MARGIN_FAR: i64 = 10000 * UNITS_PER_POINT;

/// Where the columns and margins of a transcript page lie, in thousandths of
/// a point, and the number of its first page.
#[derive(Debug, Clone, Copy, PartialEq, Eq)]
pub struct PageSettings {
    pub starting_page_number: usize,
    pub margin_left_x: i64,
    pub line_number_limit_x: i64,
    pub indent_left_position_x: i64,
    pub margin_bottom_y: i64,
    pub margin_top_y: i64,
    pub margin_right_x: i64,
}

impl PageSettings {
    /// The margins run left to right and bottom to top.
    pub open spec fn wf(&self) -> bool {
        &&& self.margin_left_x < self.line_number_limit_x
        &&& self.line_number_limit_x < self.indent_left_position_x
        &&& self.indent_left_position_x < self.margin_right_x
        &&& self.margin_bottom_y < self.margin_top_y
    }

    /// Settings with the given line-number column edge and paragraph indent,
    /// starting at page one, with the print region open to the left, top and
    /// right and closed below 27 points.
    pub fn new(line_number_limit_x: i64, indent_left_position_x: i64) -> (r: PageSettings)
        requires
            0 < line_number_limit_x < indent_left_position_x < DEFAULT_MARGIN_FAR,
        ensures
            r.wf(),
            r.starting_page_number == 1,
            r.margin_left_x == 0,
            r.line_number_limit_x == line_number_limit_x,
            r.indent_left_position_x == indent_left_position_x,
            r.margin_bottom_y == DEFAULT_MARGIN_BOTTOM_Y,
            r.margin_top_y == DEFAULT_MARGIN_FAR,
            r.margin_right_x == DEFAULT_MARGIN_FAR,
    {
        PageSettings {
            starting_page_number: 1,
            margin_left_x: 0,
            line_number_limit_x,
            indent_left_position_x,
            margin_bottom_y: DEFAULT_MARGIN_BOTTOM_Y,
            margin_top_y: DEFAULT_MARGIN_FAR,
            margin_right_x: DEFAULT_MARGIN_FAR,
        }
    }
}

} // verus!
