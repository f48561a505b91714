//! Encoder settings and their builder.
use crate::terminal::{
    cell_measurable, spec_cell, spec_palette_size, Capabilities, WindowSize,
};
use vstd::prelude::*;

verus! {

/// How an image is encoded: the colors to dither to, the size to scale to,
/// and the pixel size of a text cell.
#[derive(Clone, Copy, Debug, PartialEq, Eq)]
pub struct Settings {
    colors: Option<u16>,
    size: Option<(u32, u32)>,
    cell: Option<(u32, u32)>,
}

/// Collects settings before they are completed from the terminal.
#[derive(Debug, PartialEq, Eq)]
pub struct Builder {
    colors: Option<u16>,
    size: Option<(u32, u32)>,
    cell: Option<(u32, u32)>,
}

impl Settings {
    /// The number of colors to dither to; none keeps all colors and their alpha.
    pub closed spec fn spec_colors(&self) -> Option<u16> {
        self.colors
    }

    /// The size to scale to; none keeps the image's size.
    pub closed spec fn spec_size(&self) -> Option<(u32, u32)> {
        self.size
    }

    /// The pixel size of a text cell.
    pub closed spec fn spec_cell(&self) -> Option<(u32, u32)> {
        self.cell
    }

    /// A builder with nothing set.
    pub fn new() -> (builder: Builder)
        ensures
            builder.spec_colors() is None,
            builder.spec_size() is None,
            builder.spec_cell() is None,
    {
        Builder::default()
    }

    /// The number of colors to dither to.
    pub fn colors(&self) -> (colors: Option<u16>)
        ensures
            colors == self.spec_colors(),
    {
        self.colors
    }

    /// The size to scale to.
    pub fn size(&self) -> (size: Option<(u32, u32)>)
        ensures
            size == self.spec_size(),
    {
        self.size
    }

    /// The pixel size of a text cell.
    pub fn cell(&self) -> (cell: Option<(u32, u32)>)
        ensures
            cell == self.spec_cell(),
    {
        self.cell
    }
}

impl Default for Builder {
    fn default() -> (builder: Self)
        ensures
            builder.spec_colors() is None,
            builder.spec_size() is None,
            builder.spec_cell() is None,
    {
        Builder { colors: None, size: None, cell: None }
    }
}

impl Builder {
    /// The number of colors set so far.
    pub closed spec fn spec_colors(&self) -> Option<u16> {
        self.colors
    }

    /// The size set so far.
    pub closed spec fn spec_size(&self) -> Option<(u32, u32)> {
        self.size
    }

    /// The cell size set so far.
    pub closed spec fn spec_cell(&self) -> Option<(u32, u32)> {
        self.cell
    }

    /// Sets the number of colors to dither to.
    pub fn colors(&mut self, colors: u16) -> (builder: &mut Self)
        ensures
            builder.spec_colors() == Some(colors),
            builder.spec_size() == old(self).spec_size(),
            builder.spec_cell() == old(self).spec_cell(),
            *final(self) == *final(builder),
    {
        self.colors = Some(colors);
        self
    }

    /// Sets the size to scale to.
    pub fn size(&mut self, width: u32, height: u32) -> (builder: &mut Self)
        ensures
            builder.spec_size() == Some((width, height)),
            builder.spec_colors() == old(self).spec_colors(),
            builder.spec_cell() == old(self).spec_cell(),
            *final(self) == *final(builder),
    {
        self.size = Some((width, height));
        self
    }

    /// Completes the settings from what the terminal reports: the colors
    /// come from the builder, else from the terminfo entry where there is one;
    /// the cell size comes from the window where it reports a pixel size.
    pub fn build(&self, caps: Option<Capabilities>, window: Option<WindowSize>) -> (settings: Settings)
        requires
            window matches Some(w) ==> cell_measurable(w),
        ensures
            settings.spec_colors() == match self.spec_colors() {
                Some(c) => Some(c),
                None => match caps {
                    Some(caps) => spec_palette_size(caps),
                    None => None,
                },
            },
            settings.spec_size() == self.spec_size(),
            settings.spec_cell() == match window {
                Some(w) => spec_cell(w),
                None => None,
            },
    {
        let colors = match self.colors {
            Some(c) => Some(c),
            None => match caps {
                Some(caps) => caps.palette_size(),
                None => None,
            },
        };
        let cell = match window {
            Some(w) => w.cell(),
            None => None,
        };
        Settings { colors, size: self.size, cell }
    }
}

} // verus!
