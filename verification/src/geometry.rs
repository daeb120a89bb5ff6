//! Page geometry, text styles, and the number of characters that fit on
//! a line.

use vstd::prelude::*;

verus! {

/// Why a page geometry or a text style cannot be laid out.
#[derive(Clone, Copy, Debug, PartialEq, Eq, Structural)]
pub enum ConfigurationError {
    /// A page dimension, a margin or the line height is zero.
    ZeroLength,
    /// The left and right margins leave no usable width.
    NoUsableWidth,
    /// The top and bottom margins leave no usable height.
    NoUsableHeight,
    /// The point size of a style is zero.
    ZeroFontSize,
    /// The point size is so large that not even one character fits on a line.
    LineTooNarrow,
}

/// The page rectangle, its four margins and the distance between two
/// baselines.  Every length is a whole number of one unit; point sizes of
/// styles are whole numbers on the same scale.  Vertical positions are
/// measured upwards from the bottom edge of the page.
#[derive(Clone, Copy, Debug, PartialEq, Eq, Structural)]
pub struct PageGeometry {
    pub width: u32,
    pub height: u32,
    pub margin_left: u32,
    pub margin_right: u32,
    pub margin_top: u32,
    pub margin_bottom: u32,
    pub line_height: u32,
}

impl PageGeometry {
    /// Page width minus the left and right margins.
    pub open spec fn usable_width(self) -> int {
        self.width - self.margin_left - self.margin_right
    }

    /// Page height minus the top and bottom margins.
    pub open spec fn usable_height(self) -> int {
        self.height - self.margin_top - self.margin_bottom
    }

    /// The position of the first line of a page: the top of the usable area.
    pub open spec fn top_y(self) -> int {
        self.height - self.margin_top
    }

    /// All lengths are positive and the margins leave a usable area.
    pub open spec fn valid(self) -> bool {
        &&& self.width > 0
        &&& self.height > 0
        &&& self.margin_left > 0
        &&& self.margin_right > 0
        &&& self.margin_top > 0
        &&& self.margin_bottom > 0
        &&& self.line_height > 0
        &&& self.usable_width() > 0
        &&& self.usable_height() > 0
    }

    /// The first thing wrong with this geometry, if anything is.
    pub open spec fn defect(self) -> Option<ConfigurationError> {
        if self.width == 0 || self.height == 0 || self.margin_left == 0 || self.margin_right == 0
            || self.margin_top == 0 || self.margin_bottom == 0 || self.line_height == 0 {
            Some(ConfigurationError::ZeroLength)
        } else if self.usable_width() <= 0 {
            Some(ConfigurationError::NoUsableWidth)
        } else if self.usable_height() <= 0 {
            Some(ConfigurationError::NoUsableHeight)
        } else {
            None
        }
    }

    /// Accepts exactly the valid geometries, and names the first defect of
    /// any other.
    pub fn check(&self) -> (r: Result<(), ConfigurationError>)
        ensures
            r is Ok <==> self.valid(),
            r == match self.defect() {
                Some(e) => Err::<(), ConfigurationError>(e),
                None => Ok(()),
            },
    {
        if self.width == 0 || self.height == 0 || self.margin_left == 0 || self.margin_right == 0
            || self.margin_top == 0 || self.margin_bottom == 0 || self.line_height == 0 {
            Err(ConfigurationError::ZeroLength)
        } else if self.width as u64 <= self.margin_left as u64 + self.margin_right as u64 {
            Err(ConfigurationError::NoUsableWidth)
        } else if self.height as u64 <= self.margin_top as u64 + self.margin_bottom as u64 {
            Err(ConfigurationError::NoUsableHeight)
        } else {
            Ok(())
        }
    }
}

/// A geometry has no defect exactly when it is valid.
pub proof fn lemma_valid_iff_no_defect(g: PageGeometry)
    ensures
        g.valid() <==> g.defect() is None,
{
}

/// Regular or bold type.
#[derive(Clone, Copy, Debug, PartialEq, Eq, Structural)]
pub enum FontWeight {
    Regular,
    Bold,
}

/// How the lines of one block are drawn.
#[derive(Clone, Copy, Debug, PartialEq, Eq, Structural)]
pub struct StyleSpec {
    pub weight: FontWeight,
    /// Point size, on the scale of the geometry's lengths.
    pub size: u32,
    /// Whether the block is an item of a bulleted list.
    pub bullet: bool,
}

/// The number of characters that fit on one line: the available width
/// divided by 0.45 times the point size, rounded down.
pub open spec fn max_chars(width: int, size: int) -> int
    recommends
        size > 0,
{
    (20 * width) / (9 * size)
}

/// What keeps text of point size `size` from being set on a line of
/// `width`, if anything does.
pub open spec fn style_defect(width: int, size: int) -> Option<ConfigurationError> {
    if size <= 0 {
        Some(ConfigurationError::ZeroFontSize)
    } else if max_chars(width, size) <= 0 {
        Some(ConfigurationError::LineTooNarrow)
    } else {
        None
    }
}

/// Computes `max_chars`, or says why no character fits.
pub fn max_chars_per_line(width: u32, size: u32) -> (r: Result<u64, ConfigurationError>)
    ensures
        match r {
            Ok(n) => style_defect(width as int, size as int) is None && n == max_chars(
                width as int,
                size as int,
            ) && n > 0,
            Err(e) => style_defect(width as int, size as int) == Some(e),
        },
{
    if size == 0 {
        return Err(ConfigurationError::ZeroFontSize);
    }
    let n: u64 = (20 * (width as u64)) / (9 * (size as u64));
    if n == 0 {
        Err(ConfigurationError::LineTooNarrow)
    } else {
        Ok(n)
    }
}

} // verus!
