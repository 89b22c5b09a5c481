//! The geometry of a symbol: where its function patterns lie and in which
//! order its remaining modules take up data.
use crate::bit::{bit_run, Bit};
use crate::mask::MaskPattern;
use crate::tables::alignment::alignment_coordinates;
use crate::tables::info::{format_word, version_word};
use vstd::prelude::*;

verus! {

/// The side length of a symbol, in modules.
pub open spec fn side(version: int) -> int {
    17 + 4 * version
}

/// Whether column `x` and row `y` lie inside a grid of side `s`.
pub open spec fn in_grid(s: int, x: int, y: int) -> bool {
    0 <= x < s && 0 <= y < s
}

/// The module in column `x` of row `y` of a grid of side `s` that is
/// stored row by row.
pub open spec fn module_at(cells: Seq<Bit>, s: int, x: int, y: int) -> Bit {
    cells[x + s * y]
}

/// The grid in which every module of `cells` is replaced by what `paint`
/// makes of its column, its row and the module itself.
pub open spec fn painted(cells: Seq<Bit>, s: int, paint: spec_fn(int, int, Bit) -> Bit) -> Seq<
    Bit,
> {
    Seq::new(cells.len(), |i: int| paint(i % s, i / s, cells[i]))
}

/// A grid of light, unreserved modules.
pub open spec fn blank(s: int) -> Seq<Bit> {
    Seq::new((s * s) as nat, |i: int| Bit::Zero(false))
}

/// Two modules of a grid share a place in its storage only if they share
/// column and row.
pub proof fn lemma_place_is_unique(s: int, a: int, b: int, x: int, y: int)
    by (nonlinear_arith)
    requires
        0 <= a < s,
        0 <= x < s,
        a + s * b == x + s * y,
    ensures
        a == x,
        b == y,
{
}

/// Every module of a grid has a place in its storage.
pub proof fn lemma_place_in_storage(s: int, x: int, y: int)
    by (nonlinear_arith)
    requires
        in_grid(s, x, y),
    ensures
        0 <= x + s * y < s * s,
{
}

/// Every place of the storage of a grid belongs to one module of it.
pub proof fn lemma_place_has_module(s: int, i: int)
    requires
        0 < s,
        0 <= i < s * s,
    ensures
        in_grid(s, i % s, i / s),
        i == i % s + s * (i / s),
{
    vstd::arithmetic::div_mod::lemma_fundamental_div_mod(i, s);
    vstd::arithmetic::div_mod::lemma_mod_bound(i, s);
    let q = i / s;
    assert(0 <= q < s) by (nonlinear_arith)
        requires
            0 < s,
            0 <= i < s * s,
            i == s * q + i % s,
            0 <= i % s < s,
    ;
}

/// A grid whose modules are what `paint` makes of those of `cells` is the
/// painted grid.
pub proof fn lemma_painted(
    cells: Seq<Bit>,
    after: Seq<Bit>,
    s: int,
    paint: spec_fn(int, int, Bit) -> Bit,
)
    requires
        0 < s,
        cells.len() == s * s,
        after.len() == s * s,
        forall|x: int, y: int|
            in_grid(s, x, y) ==> #[trigger] module_at(after, s, x, y) == paint(
                x,
                y,
                module_at(cells, s, x, y),
            ),
    ensures
        after == painted(cells, s, paint),
{
    assert forall|i: int| 0 <= i < after.len() implies after[i] == painted(cells, s, paint)[i] by {
        lemma_place_has_module(s, i);
        assert(after[i] == module_at(after, s, i % s, i / s));
        assert(cells[i] == module_at(cells, s, i % s, i / s));
    }
    assert(after =~= painted(cells, s, paint));
}

/// The modules of a painted grid.
pub proof fn lemma_painted_module(
    cells: Seq<Bit>,
    s: int,
    paint: spec_fn(int, int, Bit) -> Bit,
    x: int,
    y: int,
)
    requires
        cells.len() == s * s,
        in_grid(s, x, y),
    ensures
        painted(cells, s, paint).len() == cells.len(),
        module_at(painted(cells, s, paint), s, x, y) == paint(x, y, module_at(cells, s, x, y)),
{
    lemma_place_in_storage(s, x, y);
    let i = x + s * y;
    lemma_place_has_module(s, i);
    lemma_place_is_unique(s, i % s, i / s, x, y);
}

/// The shapes that are stamped onto a symbol as blocks of reserved
/// modules.
#[derive(Clone, Copy, Debug, PartialEq, Eq, Structural)]
pub enum Pattern {
    /// The 7 by 7 finder: a dark ring, a light ring and a dark 3 by 3 core.
    Finder,
    /// The 5 by 5 alignment pattern: a dark ring, a light ring and a dark
    /// centre.
    Alignment,
    /// Light modules throughout.
    Light,
    /// Dark modules throughout.
    Dark,
}

impl Pattern {
    /// Whether the module in column `dx` and row `dy` of the shape, counted
    /// from its top left corner, is dark.
    pub open spec fn dark_at(self, dx: int, dy: int) -> bool {
        match self {
            Pattern::Finder => dx == 0 || dx == 6 || dy == 0 || dy == 6 || (2 <= dx <= 4 && 2
                <= dy <= 4),
            Pattern::Alignment => dx == 0 || dx == 4 || dy == 0 || dy == 4 || (dx == 2 && dy
                == 2),
            Pattern::Light => false,
            Pattern::Dark => true,
        }
    }

    /// The module of the shape in column `dx` and row `dy`.
    pub fn module(self, dx: u32, dy: u32) -> (bit: Bit)
        ensures
            bit == Bit::of(self.dark_at(dx as int, dy as int), true),
    {
        let dark = match self {
            Pattern::Finder => dx == 0 || dx == 6 || dy == 0 || dy == 6 || (2 <= dx && dx <= 4
                && 2 <= dy && dy <= 4),
            Pattern::Alignment => dx == 0 || dx == 4 || dy == 0 || dy == 4 || (dx == 2 && dy
                == 2),
            Pattern::Light => false,
            Pattern::Dark => true,
        };
        Bit::new(dark, true)
    }
}

/// What stamping a shape over the block of `w` columns and `h` rows whose
/// top left corner is at `(x0, y0)` makes of the module at `(x, y)`.
pub open spec fn stamp_paint(kind: Pattern, x0: int, y0: int, w: int, h: int) -> spec_fn(
    int,
    int,
    Bit,
) -> Bit {
    |x: int, y: int, old: Bit|
        if x0 <= x < x0 + w && y0 <= y < y0 + h {
            Bit::of(kind.dark_at(x - x0, y - y0), true)
        } else {
            old
        }
}

/// The grid with a shape stamped over a block of it. Every module of the
/// block becomes reserved; the parts of the block that lie outside the grid
/// are dropped.
pub open spec fn stamped(cells: Seq<Bit>, s: int, kind: Pattern, x0: int, y0: int, w: int, h: int) -> Seq<
    Bit,
> {
    painted(cells, s, stamp_paint(kind, x0, y0, w, h))
}

/// The grid with the three finder patterns in its top left, top right and
/// bottom left corners.
pub open spec fn with_finders(cells: Seq<Bit>, s: int) -> Seq<Bit> {
    let top_left = stamped(cells, s, Pattern::Finder, 0, 0, 7, 7);
    let top_right = stamped(top_left, s, Pattern::Finder, s - 7, 0, 7, 7);
    stamped(top_right, s, Pattern::Finder, 0, s - 7, 7, 7)
}

/// The grid with the light separators along the inner edges of the three
/// finder patterns.
pub open spec fn with_separators(cells: Seq<Bit>, s: int) -> Seq<Bit> {
    let a = stamped(cells, s, Pattern::Light, 7, 0, 1, 8);
    let b = stamped(a, s, Pattern::Light, s - 8, 0, 1, 8);
    let c = stamped(b, s, Pattern::Light, 7, s - 8, 1, 8);
    let d = stamped(c, s, Pattern::Light, 0, 7, 7, 1);
    let e = stamped(d, s, Pattern::Light, s - 7, 7, 7, 1);
    stamped(e, s, Pattern::Light, 0, s - 8, 7, 1)
}

/// The grid with an alignment pattern centred at `(cx, cy)`, unless the
/// module there is reserved already: then the grid stays as it is.
pub open spec fn with_alignment_pattern(cells: Seq<Bit>, s: int, cx: int, cy: int) -> Seq<Bit> {
    if module_at(cells, s, cx, cy).reserved() {
        cells
    } else {
        stamped(cells, s, Pattern::Alignment, cx - 2, cy - 2, 5, 5)
    }
}

/// All pairs of the given coordinates, the first component moving slowest.
pub open spec fn coordinate_pairs(coords: Seq<int>) -> Seq<(int, int)> {
    Seq::new(
        coords.len() * coords.len(),
        |k: int| (coords[k / (coords.len() as int)], coords[k % (coords.len() as int)]),
    )
}

/// The grid after an attempt to draw an alignment pattern at each of the
/// given centres, in order.
pub open spec fn with_alignment_patterns(cells: Seq<Bit>, s: int, centres: Seq<(int, int)>) -> Seq<
    Bit,
>
    decreases centres.len(),
{
    if centres.len() == 0 {
        cells
    } else {
        with_alignment_pattern(
            with_alignment_patterns(cells, s, centres.drop_last()),
            s,
            centres.last().0,
            centres.last().1,
        )
    }
}

/// The grid with the alignment patterns of a version, drawn at every pair
/// of its alignment coordinates whose centre is still free.
pub open spec fn with_alignment(cells: Seq<Bit>, s: int, version: int) -> Seq<Bit> {
    with_alignment_patterns(cells, s, coordinate_pairs(alignment_coordinates(version)))
}

/// What drawing the timing patterns makes of the module at `(x, y)`: the
/// modules of row 6 and of column 6 between the finder patterns alternate,
/// dark at even coordinates, unless they are reserved already.
pub open spec fn timing_paint(s: int) -> spec_fn(int, int, Bit) -> Bit {
    |x: int, y: int, old: Bit|
        if old.reserved() {
            old
        } else if y == 6 && 8 <= x < s - 8 {
            Bit::of(x % 2 == 0, true)
        } else if x == 6 && 8 <= y < s - 8 {
            Bit::of(y % 2 == 0, true)
        } else {
            old
        }
}

/// The grid with the two timing patterns.
pub open spec fn with_timing(cells: Seq<Bit>, s: int) -> Seq<Bit> {
    painted(cells, s, timing_paint(s))
}

/// The grid with the dark module beside the bottom left finder pattern.
pub open spec fn with_dark_module(cells: Seq<Bit>, s: int, version: int) -> Seq<Bit> {
    stamped(cells, s, Pattern::Dark, 8, 4 * version + 9, 1, 1)
}

/// Which bit of the format information, counted from the most significant
/// of its 15 bits, the module at `(x, y)` holds, if it holds one. The first
/// copy runs along row 8 from the left edge to column 8 and then up column
/// 8 to the top edge, leaving out column 6 and row 6; the second copy runs
/// up column 8 from the bottom edge and then along row 8 to the right edge.
pub open spec fn format_bit_index(s: int, x: int, y: int) -> Option<int> {
    if y == 8 && 0 <= x <= 8 && x != 6 {
        Some(
            if x < 6 {
                x
            } else {
                x - 1
            },
        )
    } else if x == 8 && 0 <= y <= 7 && y != 6 {
        Some(
            if y == 7 {
                8
            } else {
                14 - y
            },
        )
    } else if x == 8 && s - 7 <= y < s {
        Some(s - 1 - y)
    } else if y == 8 && s - 8 <= x < s {
        Some(x - s + 15)
    } else {
        None
    }
}

/// What drawing the format information `bits` makes of the module at
/// `(x, y)`.
pub open spec fn format_paint(s: int, bits: Seq<Bit>) -> spec_fn(int, int, Bit) -> Bit {
    |x: int, y: int, old: Bit|
        match format_bit_index(s, x, y) {
            Some(i) => bits[i],
            None => old,
        }
}

/// The 15 reserved modules that spell the format information of a level
/// (0 for L to 3 for H) and a mask pattern, most significant bit first.
pub open spec fn format_modules(level: int, mask: MaskPattern) -> Seq<Bit> {
    bit_run(format_word(level, mask.index()), 15, true, true)
}

/// The grid with both copies of the format information.
pub open spec fn with_format(cells: Seq<Bit>, s: int, level: int, mask: MaskPattern) -> Seq<Bit> {
    painted(cells, s, format_paint(s, format_modules(level, mask)))
}

/// Which bit of the version information, counted from the most significant
/// of its 18 bits, the module at `(x, y)` holds, if it holds one. The block
/// at the bottom left is six columns wide and three rows high and is filled
/// column by column; the block at the top right mirrors it.
pub open spec fn version_bit_index(s: int, x: int, y: int) -> Option<int> {
    if 0 <= x < 6 && s - 11 <= y < s - 8 {
        Some(3 * x + (y - (s - 11)))
    } else if 0 <= y < 6 && s - 11 <= x < s - 8 {
        Some(3 * y + (x - (s - 11)))
    } else {
        None
    }
}

/// What drawing the version information `bits` makes of the module at
/// `(x, y)`.
pub open spec fn version_paint(s: int, bits: Seq<Bit>) -> spec_fn(int, int, Bit) -> Bit {
    |x: int, y: int, old: Bit|
        match version_bit_index(s, x, y) {
            Some(i) => bits[i],
            None => old,
        }
}

/// The 18 reserved modules that spell the version information, most
/// significant bit first.
pub open spec fn version_modules(version: int) -> Seq<Bit> {
    bit_run(version_word(version), 18, true, true)
}

/// The grid with both copies of the version information.
pub open spec fn with_version(cells: Seq<Bit>, s: int, version: int) -> Seq<Bit> {
    painted(cells, s, version_paint(s, version_modules(version)))
}

/// The grid with all function patterns of a symbol: finder patterns,
/// separators, alignment patterns, timing patterns, the dark module, the
/// format information and, from version 7 on, the version information.
pub open spec fn with_function_patterns(
    cells: Seq<Bit>,
    version: int,
    level: int,
    mask: MaskPattern,
) -> Seq<Bit> {
    let s = side(version);
    let finders = with_finders(cells, s);
    let separators = with_separators(finders, s);
    let alignment = with_alignment(separators, s, version);
    let timing = with_timing(alignment, s);
    let dark = with_dark_module(timing, s, version);
    let format = with_format(dark, s, level, mask);
    if version >= 7 {
        with_version(format, s, version)
    } else {
        format
    }
}

/// What applying a mask pattern makes of the module at `(x, y)`: the
/// colour of a module that is not reserved is inverted where the pattern
/// covers it.
pub open spec fn mask_paint(mask: MaskPattern) -> spec_fn(int, int, Bit) -> Bit {
    |x: int, y: int, old: Bit|
        if !old.reserved() && mask.covers(x, y) {
            old.inverted()
        } else {
            old
        }
}

/// The grid with a mask pattern applied.
pub open spec fn with_mask(cells: Seq<Bit>, s: int, mask: MaskPattern) -> Seq<Bit> {
    painted(cells, s, mask_paint(mask))
}

/// The right-hand column of the `p`-th pair of columns that data placement
/// walks through, counted from the right edge. The pairs skip column 6,
/// which holds a timing pattern: the pairs to its left are shifted by one.
pub open spec fn pair_right(s: int, p: int) -> int {
    if s - 1 - 2 * p > 6 {
        s - 1 - 2 * p
    } else {
        s - 2 - 2 * p
    }
}

/// The `t`-th module that data placement visits in the `p`-th pair of
/// columns. The pairs are walked upwards and downwards in turn, starting
/// upwards at the right edge; in each row the right module comes first.
pub open spec fn pair_cell(s: int, p: int, t: int) -> (int, int) {
    (
        pair_right(s, p) - t % 2,
        if p % 2 == 0 {
            s - 1 - t / 2
        } else {
            t / 2
        },
    )
}

/// The pair of columns to which column `x` belongs.
pub open spec fn pair_of_column(s: int, x: int) -> int {
    if x > 6 {
        (s - 1 - x) / 2
    } else {
        (s - 2 - x) / 2
    }
}

/// The turn at which data placement visits the module at `(x, y)` within
/// its pair of columns.
pub open spec fn turn_in_pair(s: int, x: int, y: int) -> int {
    let p = pair_of_column(s, x);
    2 * (if p % 2 == 0 {
        s - 1 - y
    } else {
        y
    }) + (pair_right(s, p) - x)
}

/// How many of the first `t` modules visited in the `p`-th pair of columns
/// are not reserved.
pub open spec fn free_in_pair(cells: Seq<Bit>, s: int, p: int, t: nat) -> nat
    decreases t,
{
    if t == 0 {
        0
    } else {
        let (x, y) = pair_cell(s, p, t - 1);
        free_in_pair(cells, s, p, (t - 1) as nat) + (if module_at(cells, s, x, y).reserved() {
            0nat
        } else {
            1nat
        })
    }
}

/// How many modules of the first `p` pairs of columns are not reserved.
pub open spec fn free_before_pair(cells: Seq<Bit>, s: int, p: nat) -> nat
    decreases p,
{
    if p == 0 {
        0
    } else {
        free_before_pair(cells, s, (p - 1) as nat) + free_in_pair(cells, s, p - 1, (2 * s) as nat)
    }
}

/// How many modules that are not reserved data placement visits before it
/// comes to the module at `(x, y)`, which is not in column 6.
pub open spec fn placement_rank(cells: Seq<Bit>, s: int, x: int, y: int) -> nat {
    free_before_pair(cells, s, pair_of_column(s, x) as nat) + free_in_pair(
        cells,
        s,
        pair_of_column(s, x),
        turn_in_pair(s, x, y) as nat,
    )
}

/// What placing the bit stream `bits` on the grid `cells` makes of the
/// module at `(x, y)`: the modules that are not reserved take up the bits
/// in the order in which they are visited, as long as there are bits left.
/// Reserved modules and column 6 stay as they are.
pub open spec fn data_paint(cells: Seq<Bit>, s: int, bits: Seq<Bit>) -> spec_fn(int, int, Bit) -> Bit {
    |x: int, y: int, old: Bit|
        if x == 6 || old.reserved() {
            old
        } else if placement_rank(cells, s, x, y) < bits.len() {
            bits[placement_rank(cells, s, x, y) as int]
        } else {
            old
        }
}

/// The grid with a bit stream placed on it.
pub open spec fn with_data(cells: Seq<Bit>, s: int, bits: Seq<Bit>) -> Seq<Bit> {
    painted(cells, s, data_paint(cells, s, bits))
}

/// Data placement visits every module outside column 6, and each at one
/// turn only: the module visited at the turn of a module is that module,
/// and the turn of the module visited at a turn is that turn.
pub proof fn lemma_placement_order(version: int, x: int, y: int, p: int, t: int)
    requires
        1 <= version <= 40,
    ensures
        in_grid(side(version), x, y) && x != 6 ==> {
            &&& 0 <= pair_of_column(side(version), x) < (side(version) - 1) / 2
            &&& 0 <= turn_in_pair(side(version), x, y) < 2 * side(version)
            &&& pair_cell(
                side(version),
                pair_of_column(side(version), x),
                turn_in_pair(side(version), x, y),
            ) == (x, y)
        },
        0 <= p < (side(version) - 1) / 2 && 0 <= t < 2 * side(version) ==> {
            let (a, b) = pair_cell(side(version), p, t);
            &&& in_grid(side(version), a, b)
            &&& a != 6
            &&& pair_of_column(side(version), a) == p
            &&& turn_in_pair(side(version), a, b) == t
        },
{
}

/// The character that shows a dark module: a full block, written twice
/// for each module.
pub open spec fn dark_char() -> char {
    '\u{2588}'
}

/// Line `line` of the picture of a grid, counted from the top of the quiet
/// zone of four modules that surrounds the grid: two characters for each
/// module, full blocks for a dark module and spaces for a light one, and a
/// line feed at the end.
pub open spec fn rendered_line(cells: Seq<Bit>, s: int, line: int) -> Seq<char> {
    Seq::new(
        (2 * (s + 8) + 1) as nat,
        |c: int|
            if c == 2 * (s + 8) {
                '\n'
            } else if in_grid(s, c / 2 - 4, line - 4) && module_at(
                cells,
                s,
                c / 2 - 4,
                line - 4,
            ).dark() {
                dark_char()
            } else {
                ' '
            },
    )
}

/// The first `count` lines of the picture of a grid.
pub open spec fn rendered_lines(cells: Seq<Bit>, s: int, count: nat) -> Seq<char>
    decreases count,
{
    if count == 0 {
        Seq::empty()
    } else {
        rendered_lines(cells, s, (count - 1) as nat) + rendered_line(cells, s, count - 1)
    }
}

/// The picture of a grid as text: the grid inside a quiet zone of four
/// light modules on every side.
pub open spec fn rendered(cells: Seq<Bit>, s: int) -> Seq<char> {
    rendered_lines(cells, s, (s + 8) as nat)
}

} // verus!
