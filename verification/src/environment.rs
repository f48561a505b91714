//! What the terminal offers for drawing: its colors, its size in cells, and
//! the pixel size of a cell.
use crate::terminal::{
    cell_measurable, spec_cell, spec_palette_size, Capabilities, WindowSize,
};
use vstd::prelude::*;

verus! {

/// The drawing facts of a terminal.
#[derive(Clone, Copy, Debug, PartialEq, Eq)]
pub struct Environment {
    colors: Option<u16>,
    limits: (u32, u32),
    cell: Option<(u32, u32)>,
}

/// `count` cells of `unit` pixels each fit in 32 bits.
pub open spec fn fits(count: u32, unit: u32) -> bool {
    count * unit <= u32::MAX
}

impl Environment {
    /// The palette size of the terminal; none for a direct-color terminal.
    pub closed spec fn spec_colors(&self) -> Option<u16> {
        self.colors
    }

    /// The window size in text columns and rows.
    pub closed spec fn spec_limits(&self) -> (u32, u32) {
        self.limits
    }

    /// The pixel size of a text cell, where it is known.
    pub closed spec fn spec_cell(&self) -> Option<(u32, u32)> {
        self.cell
    }

    /// The environment of a terminal with the given terminfo colors and window.
    pub fn from_terminal(caps: Capabilities, window: WindowSize) -> (env: Environment)
        requires
            cell_measurable(window),
        ensures
            env.spec_colors() == spec_palette_size(caps),
            env.spec_limits() == (window.cols as u32, window.rows as u32),
            env.spec_cell() == spec_cell(window),
    {
        Environment {
            colors: caps.palette_size(),
            limits: (window.cols as u32, window.rows as u32),
            cell: window.cell(),
        }
    }

    /// The palette size of the terminal.
    pub fn colors(&self) -> (colors: Option<u16>)
        ensures
            colors == self.spec_colors(),
    {
        self.colors
    }

    /// The pixel size of a text cell.
    pub fn cell(&self) -> (cell: Option<(u32, u32)>)
        ensures
            cell == self.spec_cell(),
    {
        self.cell
    }

    /// The window size in text columns and rows.
    pub fn limits(&self) -> (limits: (u32, u32))
        ensures
            limits == self.spec_limits(),
    {
        self.limits
    }

    /// The pixel size of `cols` by `rows` cells, where the cell size is known.
    pub fn size(&self, cols: u32, rows: u32) -> (size: Option<(u32, u32)>)
        requires
            self.spec_cell() matches Some((w, h)) ==> fits(cols, w) && fits(rows, h),
        ensures
            size == match self.spec_cell() {
                Some((w, h)) => Some(((cols * w) as u32, (rows * h) as u32)),
                None => None,
            },
    {
        match self.cell {
            Some((width, height)) => Some((cols * width, rows * height)),
            None => None,
        }
    }

    /// The pixel size of a padding of `size` cells each way, where the cell size is known.
    pub fn padding(&self, size: u32) -> (padding: Option<(u32, u32)>)
        requires
            self.spec_cell() matches Some((w, h)) ==> fits(size, w) && fits(size, h),
        ensures
            padding == match self.spec_cell() {
                Some((w, h)) => Some(((size * w) as u32, (size * h) as u32)),
                None => None,
            },
    {
        match self.cell {
            Some((width, height)) => Some((size * width, size * height)),
            None => None,
        }
    }
}

} // verus!
