//! What the terminal reports about itself, as plain values: the color
//! capabilities from its terminfo entry and the size of its window.
use vstd::prelude::*;

verus! {

/// The color capabilities of a terminal's terminfo entry.
#[derive(Clone, Copy, Debug, PartialEq, Eq)]
pub struct Capabilities {
    /// Whether the entry has the `Ts` capability (direct colors).
    pub true_color: bool,
    /// The `max_colors` number, where the entry has one.
    pub max_colors: Option<i32>,
}

/// The size of a terminal window.
#[derive(Clone, Copy, Debug, PartialEq, Eq)]
pub struct WindowSize {
    /// Number of text rows.
    pub rows: u16,
    /// Number of text columns.
    pub cols: u16,
    /// Width in pixels, where the terminal reports it.
    pub width: Option<u16>,
    /// Height in pixels, where the terminal reports it.
    pub height: Option<u16>,
}

/// The palette size of a terminal: none for a direct-color terminal, else its
/// `max_colors` truncated to 16 bits, or 2 where the entry gives none.
pub open spec fn spec_palette_size(caps: Capabilities) -> Option<u16> {
    if caps.true_color {
        None
    } else {
        match caps.max_colors {
            Some(c) => Some(c as u16),
            None => Some(2u16),
        }
    }
}

/// The pixel size of a text cell, where the window reports its pixel size.
pub open spec fn spec_cell(size: WindowSize) -> Option<(u32, u32)> {
    match (size.width, size.height) {
        (Some(w), Some(h)) => Some(((w / size.cols) as u32, (h / size.rows) as u32)),
        _ => None,
    }
}

/// A cell can be measured: a window with a pixel size has rows and columns.
pub open spec fn cell_measurable(size: WindowSize) -> bool {
    (size.width is Some && size.height is Some) ==> (size.cols > 0 && size.rows > 0)
}

impl Capabilities {
    /// The number of colors to dither to, or none for a direct-color terminal.
    pub fn palette_size(&self) -> (colors: Option<u16>)
        ensures
            colors == spec_palette_size(*self),
    {
        if self.true_color {
            None
        } else {
            match self.max_colors {
                Some(c) => Some(c as u16),
                None => Some(2),
            }
        }
    }
}

impl WindowSize {
    /// The pixel size of one text cell, where the window reports its pixel size.
    pub fn cell(&self) -> (cell: Option<(u32, u32)>)
        requires
            cell_measurable(*self),
        ensures
            cell == spec_cell(*self),
            self.width is Some && self.height is Some ==> cell == Some(
                ((self.width->0 / self.cols) as u32, (self.height->0 / self.rows) as u32),
            ),
            self.width is None || self.height is None ==> cell is None,
    {
        match (self.width, self.height) {
            (Some(w), Some(h)) => Some(((w / self.cols) as u32, (h / self.rows) as u32)),
            _ => None,
        }
    }
}

} // verus!
