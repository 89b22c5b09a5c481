//! What construction does to reserved modules: function patterns reserve
//! what they draw, and neither data placement nor masking touches a
//! reserved module.
use crate::bit::Bit;
use crate::ec::EcLevel;
use crate::layout::{
    blank, coordinate_pairs, data_paint, format_modules, format_paint, in_grid,
    lemma_painted_module, mask_paint, module_at, side, stamp_paint, stamped, timing_paint,
    version_modules, version_paint, with_alignment, with_alignment_pattern,
    with_alignment_patterns, with_dark_module, with_data, with_format,
    with_function_patterns, with_mask, with_timing, with_version, Pattern,
};
use crate::mask::MaskPattern;
use crate::preprocessor::finished;
use crate::tables::alignment::alignment_coordinates;
use vstd::prelude::*;

verus! {

/// Whether drawing left the module at `(x, y)` alone or reserved it.
pub open spec fn kept_or_reserved(before: Seq<Bit>, after: Seq<Bit>, s: int, x: int, y: int) -> bool {
    module_at(after, s, x, y) == module_at(before, s, x, y) || module_at(after, s, x, y).reserved()
}

/// Whether `after` is a grid of the size of `before` in which every module
/// is as it was or is reserved.
pub open spec fn drawn_over(before: Seq<Bit>, after: Seq<Bit>, s: int) -> bool {
    &&& after.len() == before.len()
    &&& forall|x: int, y: int|
        in_grid(s, x, y) ==> #[trigger] kept_or_reserved(before, after, s, x, y)
}

/// Drawing over a drawn-over grid is drawing over the first grid.
pub proof fn lemma_drawn_over_twice(a: Seq<Bit>, b: Seq<Bit>, c: Seq<Bit>, s: int)
    requires
        drawn_over(a, b, s),
        drawn_over(b, c, s),
    ensures
        drawn_over(a, c, s),
{
    assert forall|x: int, y: int| in_grid(s, x, y) implies #[trigger] kept_or_reserved(
        a,
        c,
        s,
        x,
        y,
    ) by {
        assert(kept_or_reserved(a, b, s, x, y));
        assert(kept_or_reserved(b, c, s, x, y));
    }
}

/// A stamp reserves every module it draws.
pub proof fn lemma_stamp_reserves(
    cells: Seq<Bit>,
    s: int,
    kind: Pattern,
    x0: int,
    y0: int,
    w: int,
    h: int,
)
    requires
        cells.len() == s * s,
    ensures
        drawn_over(cells, stamped(cells, s, kind, x0, y0, w, h), s),
{
    let after = stamped(cells, s, kind, x0, y0, w, h);
    assert forall|x: int, y: int| in_grid(s, x, y) implies #[trigger] kept_or_reserved(
        cells,
        after,
        s,
        x,
        y,
    ) by {
        lemma_painted_module(cells, s, stamp_paint(kind, x0, y0, w, h), x, y);
    }
}

/// The alignment patterns reserve every module they draw.
pub proof fn lemma_alignment_reserves(cells: Seq<Bit>, s: int, centres: Seq<(int, int)>)
    requires
        cells.len() == s * s,
    ensures
        drawn_over(cells, with_alignment_patterns(cells, s, centres), s),
    decreases centres.len(),
{
    if centres.len() > 0 {
        let before = with_alignment_patterns(cells, s, centres.drop_last());
        lemma_alignment_reserves(cells, s, centres.drop_last());
        let (cx, cy) = centres.last();
        if !module_at(before, s, cx, cy).reserved() {
            lemma_stamp_reserves(before, s, Pattern::Alignment, cx - 2, cy - 2, 5, 5);
        }
        lemma_drawn_over_twice(cells, before, with_alignment_pattern(before, s, cx, cy), s);
    } else {
        assert forall|x: int, y: int| in_grid(s, x, y) implies #[trigger] kept_or_reserved(
            cells,
            cells,
            s,
            x,
            y,
        ) by {}
    }
}

/// The function patterns reserve every module they draw: a module of the
/// grid with all function patterns either is reserved or is as it was.
pub proof fn lemma_function_patterns_reserve(
    cells: Seq<Bit>,
    version: int,
    level: int,
    mask: MaskPattern,
)
    requires
        1 <= version <= 40,
        cells.len() == side(version) * side(version),
    ensures
        drawn_over(cells, with_function_patterns(cells, version, level, mask), side(version)),
{
    let s = side(version);
    // finder patterns
    let f1 = stamped(cells, s, Pattern::Finder, 0, 0, 7, 7);
    let f2 = stamped(f1, s, Pattern::Finder, s - 7, 0, 7, 7);
    let f3 = stamped(f2, s, Pattern::Finder, 0, s - 7, 7, 7);
    lemma_stamp_reserves(cells, s, Pattern::Finder, 0, 0, 7, 7);
    lemma_stamp_reserves(f1, s, Pattern::Finder, s - 7, 0, 7, 7);
    lemma_stamp_reserves(f2, s, Pattern::Finder, 0, s - 7, 7, 7);
    lemma_drawn_over_twice(cells, f1, f2, s);
    lemma_drawn_over_twice(cells, f2, f3, s);
    // separators
    let strip_1 = stamped(f3, s, Pattern::Light, 7, 0, 1, 8);
    let strip_2 = stamped(strip_1, s, Pattern::Light, s - 8, 0, 1, 8);
    let strip_3 = stamped(strip_2, s, Pattern::Light, 7, s - 8, 1, 8);
    let strip_4 = stamped(strip_3, s, Pattern::Light, 0, 7, 7, 1);
    let strip_5 = stamped(strip_4, s, Pattern::Light, s - 7, 7, 7, 1);
    let strip_6 = stamped(strip_5, s, Pattern::Light, 0, s - 8, 7, 1);
    lemma_stamp_reserves(f3, s, Pattern::Light, 7, 0, 1, 8);
    lemma_stamp_reserves(strip_1, s, Pattern::Light, s - 8, 0, 1, 8);
    lemma_stamp_reserves(strip_2, s, Pattern::Light, 7, s - 8, 1, 8);
    lemma_stamp_reserves(strip_3, s, Pattern::Light, 0, 7, 7, 1);
    lemma_stamp_reserves(strip_4, s, Pattern::Light, s - 7, 7, 7, 1);
    lemma_stamp_reserves(strip_5, s, Pattern::Light, 0, s - 8, 7, 1);
    lemma_drawn_over_twice(cells, f3, strip_1, s);
    lemma_drawn_over_twice(cells, strip_1, strip_2, s);
    lemma_drawn_over_twice(cells, strip_2, strip_3, s);
    lemma_drawn_over_twice(cells, strip_3, strip_4, s);
    lemma_drawn_over_twice(cells, strip_4, strip_5, s);
    lemma_drawn_over_twice(cells, strip_5, strip_6, s);
    // alignment patterns
    let a = with_alignment(strip_6, s, version);
    lemma_alignment_reserves(strip_6, s, coordinate_pairs(alignment_coordinates(version)));
    lemma_drawn_over_twice(cells, strip_6, a, s);
    // timing patterns
    let t = with_timing(a, s);
    assert forall|x: int, y: int| in_grid(s, x, y) implies #[trigger] kept_or_reserved(
        a,
        t,
        s,
        x,
        y,
    ) by {
        lemma_painted_module(a, s, timing_paint(s), x, y);
    }
    lemma_drawn_over_twice(cells, a, t, s);
    // dark module
    let d = with_dark_module(t, s, version);
    lemma_stamp_reserves(t, s, Pattern::Dark, 8, 4 * version + 9, 1, 1);
    lemma_drawn_over_twice(cells, t, d, s);
    // format information
    let f = with_format(d, s, level, mask);
    assert forall|x: int, y: int| in_grid(s, x, y) implies #[trigger] kept_or_reserved(
        d,
        f,
        s,
        x,
        y,
    ) by {
        lemma_painted_module(d, s, format_paint(s, format_modules(level, mask)), x, y);
    }
    lemma_drawn_over_twice(cells, d, f, s);
    // version information
    if version >= 7 {
        let v = with_version(f, s, version);
        assert forall|x: int, y: int| in_grid(s, x, y) implies #[trigger] kept_or_reserved(
            f,
            v,
            s,
            x,
            y,
        ) by {
            lemma_painted_module(f, s, version_paint(s, version_modules(version)), x, y);
        }
        lemma_drawn_over_twice(cells, f, v, s);
    }
}

/// Data placement leaves every reserved module as it is.
pub proof fn lemma_data_keeps_reserved(cells: Seq<Bit>, s: int, bits: Seq<Bit>, x: int, y: int)
    requires
        cells.len() == s * s,
        in_grid(s, x, y),
        module_at(cells, s, x, y).reserved(),
    ensures
        with_data(cells, s, bits).len() == cells.len(),
        module_at(with_data(cells, s, bits), s, x, y) == module_at(cells, s, x, y),
{
    lemma_painted_module(cells, s, data_paint(cells, s, bits), x, y);
}

/// The mask leaves every reserved module as it is, and changes the colour
/// and nothing else of the other modules it covers.
pub proof fn lemma_mask_keeps_reserved(cells: Seq<Bit>, s: int, mask: MaskPattern, x: int, y: int)
    requires
        cells.len() == s * s,
        in_grid(s, x, y),
    ensures
        with_mask(cells, s, mask).len() == cells.len(),
        module_at(cells, s, x, y).reserved() ==> module_at(with_mask(cells, s, mask), s, x, y)
            == module_at(cells, s, x, y),
        module_at(with_mask(cells, s, mask), s, x, y).reserved() == module_at(
            cells,
            s,
            x,
            y,
        ).reserved(),
{
    lemma_painted_module(cells, s, mask_paint(mask), x, y);
}

/// Applying a mask pattern twice gives the grid back: the mask is undone by
/// applying it again.
pub proof fn lemma_mask_twice(cells: Seq<Bit>, s: int, mask: MaskPattern)
    requires
        0 < s,
        cells.len() == s * s,
    ensures
        with_mask(with_mask(cells, s, mask), s, mask) == cells,
{
    let once = with_mask(cells, s, mask);
    let twice = with_mask(once, s, mask);
    assert forall|x: int, y: int| in_grid(s, x, y) implies #[trigger] module_at(twice, s, x, y)
        == (|a: int, b: int, old: Bit| old)(x, y, module_at(cells, s, x, y)) by {
        lemma_painted_module(cells, s, mask_paint(mask), x, y);
        lemma_painted_module(once, s, mask_paint(mask), x, y);
    }
    let keep = |a: int, b: int, old: Bit| old;
    crate::layout::lemma_painted(cells, twice, s, keep);
}

/// In a finished symbol every module that the function patterns reserved
/// is as the function patterns drew it: neither data placement nor the mask
/// has altered it.
pub proof fn lemma_finished_keeps_function_patterns(
    version: int,
    level: EcLevel,
    mask: MaskPattern,
    stream: Seq<Bit>,
    x: int,
    y: int,
)
    requires
        1 <= version <= 40,
        in_grid(side(version), x, y),
        module_at(
            with_function_patterns(blank(side(version)), version, level.index(), mask),
            side(version),
            x,
            y,
        ).reserved(),
    ensures
        module_at(finished(version, level, mask, stream), side(version), x, y) == module_at(
            with_function_patterns(blank(side(version)), version, level.index(), mask),
            side(version),
            x,
            y,
        ),
{
    let s = side(version);
    let functions = with_function_patterns(blank(s), version, level.index(), mask);
    assert(blank(s).len() == s * s) by (nonlinear_arith)
        requires
            s >= 0,
            blank(s).len() == (s * s) as nat,
    ;
    lemma_function_patterns_reserve(blank(s), version, level.index(), mask);
    lemma_data_keeps_reserved(functions, s, stream, x, y);
    lemma_mask_keeps_reserved(with_data(functions, s, stream), s, mask, x, y);
}

} // verus!
