//! The eight mask patterns.
use vstd::prelude::*;

verus! {

/// A pattern of modules whose colours are inverted to break up large
/// areas of one colour.
#[derive(Clone, Copy, Debug, PartialEq, Eq, Structural)]
pub enum MaskPattern {
    Checkerboard,
    Horizontal,
    Vertical,
    Diagonal,
    LargeCheckerboard,
    Fields,
    Diamonds,
    Meadow,
}

impl MaskPattern {
    /// Whether the pattern inverts the module in column `x` of row `y`.
    pub open spec fn covers(self, x: int, y: int) -> bool {
        match self {
            MaskPattern::Checkerboard => (x + y) % 2 == 0,
            MaskPattern::Horizontal => y % 2 == 0,
            MaskPattern::Vertical => x % 3 == 0,
            MaskPattern::Diagonal => (x + y) % 3 == 0,
            MaskPattern::LargeCheckerboard => (x / 2 + y / 3) % 2 == 0,
            MaskPattern::Fields => (x * y) % 2 + (x * y) % 3 == 0,
            MaskPattern::Diamonds => ((x * y) % 2 + (x * y) % 3) % 2 == 0,
            MaskPattern::Meadow => ((x + y) % 2 + (x * y) % 3) % 2 == 0,
        }
    }

    /// The number of the pattern, 0 to 7, as it appears in the format
    /// information.
    pub open spec fn index(self) -> int {
        match self {
            MaskPattern::Checkerboard => 0,
            MaskPattern::Horizontal => 1,
            MaskPattern::Vertical => 2,
            MaskPattern::Diagonal => 3,
            MaskPattern::LargeCheckerboard => 4,
            MaskPattern::Fields => 5,
            MaskPattern::Diamonds => 6,
            MaskPattern::Meadow => 7,
        }
    }

    /// Whether the pattern inverts the module in column `x` of row `y`.
    pub fn is_masked(self, x: u32, y: u32) -> (covered: bool)
        requires
            x < 0x10000,
            y < 0x10000,
        ensures
            covered == self.covers(x as int, y as int),
    {
        assert(x * y < 0x1_0000_0000) by (nonlinear_arith)
            requires
                x < 0x10000,
                y < 0x10000,
        ;
        match self {
            MaskPattern::Checkerboard => (x + y) % 2 == 0,
            MaskPattern::Horizontal => y % 2 == 0,
            MaskPattern::Vertical => x % 3 == 0,
            MaskPattern::Diagonal => (x + y) % 3 == 0,
            MaskPattern::LargeCheckerboard => (x / 2 + y / 3) % 2 == 0,
            MaskPattern::Fields => (x * y) % 2 + (x * y) % 3 == 0,
            MaskPattern::Diamonds => ((x * y) % 2 + (x * y) % 3) % 2 == 0,
            MaskPattern::Meadow => ((x + y) % 2 + (x * y) % 3) % 2 == 0,
        }
    }

    /// The predicate of the pattern as a function of the column and the
    /// row of a module. It may be called with coordinates below 65536.
    pub fn get_mask(&self) -> (mask: impl Fn(u32, u32) -> bool)
        ensures
            forall|x: u32, y: u32| x < 0x10000 && y < 0x10000 ==> call_requires(mask, (x, y)),
            forall|x: u32, y: u32, covered: bool|
                call_ensures(mask, (x, y), covered) ==> covered == self.covers(x as int, y as int),
    {
        let pattern = *self;
        move |x: u32, y: u32| -> (covered: bool)
            requires
                x < 0x10000,
                y < 0x10000,
            ensures
                covered == pattern.covers(x as int, y as int),
            { pattern.is_masked(x, y) }
    }

    /// The pattern with the given number, if the number is one of 0 to 7.
    pub fn from_ordinal(n: u8) -> (pattern: Option<MaskPattern>)
        ensures
            match pattern {
                Some(p) => p.index() == n,
                None => n > 7,
            },
    {
        match n {
            0 => Some(MaskPattern::Checkerboard),
            1 => Some(MaskPattern::Horizontal),
            2 => Some(MaskPattern::Vertical),
            3 => Some(MaskPattern::Diagonal),
            4 => Some(MaskPattern::LargeCheckerboard),
            5 => Some(MaskPattern::Fields),
            6 => Some(MaskPattern::Diamonds),
            7 => Some(MaskPattern::Meadow),
            _ => None,
        }
    }

    pub fn ordinal(self) -> (n: u8)
        ensures
            n == self.index(),
    {
        match self {
            MaskPattern::Checkerboard => 0,
            MaskPattern::Horizontal => 1,
            MaskPattern::Vertical => 2,
            MaskPattern::Diagonal => 3,
            MaskPattern::LargeCheckerboard => 4,
            MaskPattern::Fields => 5,
            MaskPattern::Diamonds => 6,
            MaskPattern::Meadow => 7,
        }
    }
}

} // verus!
