//! Which alignment patterns a symbol gets: one at every pair of alignment
//! coordinates, except at the three pairs that fall on finder patterns.
use crate::bit::Bit;
use crate::layout::{
    blank, coordinate_pairs, format_bit_index, format_modules, format_paint, in_grid,
    lemma_painted_module, lemma_place_in_storage, module_at, side, stamp_paint, stamped,
    timing_paint, version_bit_index, version_modules, version_paint, with_alignment,
    with_alignment_pattern, with_alignment_patterns, with_dark_module, with_finders,
    with_format, with_function_patterns, with_separators, with_timing, Pattern,
};
use crate::mask::MaskPattern;
use crate::tables::alignment::{
    alignment_coordinates, lemma_alignment_coordinates, lemma_alignment_spacing,
    lemma_no_alignment_in_version_1,
};
use vstd::prelude::*;

verus! {

/// The grid on which the alignment patterns are drawn: blank but for the
/// finder patterns and their separators.
pub open spec fn before_alignment(version: int) -> Seq<Bit> {
    with_separators(with_finders(blank(side(version)), side(version)), side(version))
}

/// Whether the module at `(x, y)` lies in one of the three corners of 8 by
/// 8 modules that the finder patterns and their separators take up.
pub open spec fn in_finder_corner(s: int, x: int, y: int) -> bool {
    (x <= 7 && y <= 7) || (x >= s - 8 && y <= 7) || (x <= 7 && y >= s - 8)
}

/// Whether the pair of the `i`-th and the `j`-th of `n` alignment
/// coordinates falls on a finder pattern: the pairs of the first with the
/// first, the first with the last and the last with the first do.
pub open spec fn collides_with_finder(n: int, i: int, j: int) -> bool {
    (i == 0 && j == 0) || (i == 0 && j == n - 1) || (i == n - 1 && j == 0)
}

/// How many of the first `k` pairs of `n` alignment coordinates fall on
/// finder patterns.
pub open spec fn collisions_before(n: int, k: int) -> int {
    (if k > 0 {
        1int
    } else {
        0int
    }) + (if k > n - 1 {
        1int
    } else {
        0int
    }) + (if k > (n - 1) * n {
        1int
    } else {
        0int
    })
}

/// How many alignment patterns are drawn when one is attempted at each of
/// the given centres in order.
pub open spec fn patterns_drawn(cells: Seq<Bit>, s: int, centres: Seq<(int, int)>) -> nat
    decreases centres.len(),
{
    if centres.len() == 0 {
        0
    } else {
        patterns_drawn(cells, s, centres.drop_last()) + (if module_at(
            with_alignment_patterns(cells, s, centres.drop_last()),
            s,
            centres.last().0,
            centres.last().1,
        ).reserved() {
            0nat
        } else {
            1nat
        })
    }
}

/// Whether a pattern centred at the coordinate `c` reaches the coordinate
/// `x`.
pub open spec fn reaches(c: int, x: int) -> bool {
    c - 2 <= x <= c + 2
}

/// The index of the alignment coordinate whose patterns reach `x`, if there
/// is one.
pub open spec fn reaching(coords: Seq<int>, x: int) -> Option<int> {
    if exists|i: int| 0 <= i < coords.len() && reaches(#[trigger] coords[i], x) {
        Some(choose|i: int| 0 <= i < coords.len() && reaches(#[trigger] coords[i], x))
    } else {
        None
    }
}

/// The module at `(x, y)` after the attempts at the first `k` pairs of
/// alignment coordinates: a module of the pattern of an earlier pair that
/// does not fall on a finder pattern, or else what was there before.
pub open spec fn alignment_module(version: int, k: int, x: int, y: int) -> Bit {
    let coords = alignment_coordinates(version);
    let n = coords.len() as int;
    match (reaching(coords, x), reaching(coords, y)) {
        (Some(i), Some(j)) => if !collides_with_finder(n, i, j) && i * n + j < k {
            Bit::of(Pattern::Alignment.dark_at(x - coords[i] + 2, y - coords[j] + 2), true)
        } else {
            module_at(before_alignment(version), side(version), x, y)
        },
        _ => module_at(before_alignment(version), side(version), x, y),
    }
}

proof fn lemma_stamped_module(
    cells: Seq<Bit>,
    s: int,
    kind: Pattern,
    x0: int,
    y0: int,
    w: int,
    h: int,
    x: int,
    y: int,
)
    requires
        cells.len() == s * s,
        in_grid(s, x, y),
    ensures
        stamped(cells, s, kind, x0, y0, w, h).len() == s * s,
        module_at(stamped(cells, s, kind, x0, y0, w, h), s, x, y) == (if x0 <= x < x0 + w && y0
            <= y < y0 + h {
            Bit::of(kind.dark_at(x - x0, y - y0), true)
        } else {
            module_at(cells, s, x, y)
        }),
{
    lemma_painted_module(cells, s, stamp_paint(kind, x0, y0, w, h), x, y);
}

/// Before the alignment patterns are drawn, the reserved modules are those
/// of the three corners with the finder patterns.
pub proof fn lemma_before_alignment(version: int, x: int, y: int)
    requires
        1 <= version <= 40,
        in_grid(side(version), x, y),
    ensures
        before_alignment(version).len() == side(version) * side(version),
        module_at(before_alignment(version), side(version), x, y).reserved() == in_finder_corner(
            side(version),
            x,
            y,
        ),
{
    let s = side(version);
    let b = blank(s);
    assert(b.len() == s * s) by (nonlinear_arith)
        requires
            s >= 0,
            b.len() == (s * s) as nat,
    ;
    lemma_place_in_storage(s, x, y);
    let f1 = stamped(b, s, Pattern::Finder, 0, 0, 7, 7);
    let f2 = stamped(f1, s, Pattern::Finder, s - 7, 0, 7, 7);
    let f3 = stamped(f2, s, Pattern::Finder, 0, s - 7, 7, 7);
    lemma_stamped_module(b, s, Pattern::Finder, 0, 0, 7, 7, x, y);
    lemma_stamped_module(f1, s, Pattern::Finder, s - 7, 0, 7, 7, x, y);
    lemma_stamped_module(f2, s, Pattern::Finder, 0, s - 7, 7, 7, x, y);
    let strip_1 = stamped(f3, s, Pattern::Light, 7, 0, 1, 8);
    let strip_2 = stamped(strip_1, s, Pattern::Light, s - 8, 0, 1, 8);
    let strip_3 = stamped(strip_2, s, Pattern::Light, 7, s - 8, 1, 8);
    let strip_4 = stamped(strip_3, s, Pattern::Light, 0, 7, 7, 1);
    let strip_5 = stamped(strip_4, s, Pattern::Light, s - 7, 7, 7, 1);
    lemma_stamped_module(f3, s, Pattern::Light, 7, 0, 1, 8, x, y);
    lemma_stamped_module(strip_1, s, Pattern::Light, s - 8, 0, 1, 8, x, y);
    lemma_stamped_module(strip_2, s, Pattern::Light, 7, s - 8, 1, 8, x, y);
    lemma_stamped_module(strip_3, s, Pattern::Light, 0, 7, 7, 1, x, y);
    lemma_stamped_module(strip_4, s, Pattern::Light, s - 7, 7, 7, 1, x, y);
    lemma_stamped_module(strip_5, s, Pattern::Light, 0, s - 8, 7, 1, x, y);
}

/// The patterns of one alignment coordinate only reach a given coordinate.
pub proof fn lemma_reaching(version: int, i: int, x: int)
    requires
        2 <= version <= 40,
        0 <= i < alignment_coordinates(version).len(),
        reaches(alignment_coordinates(version)[i], x),
    ensures
        reaching(alignment_coordinates(version), x) == Some(i),
{
    let coords = alignment_coordinates(version);
    let found = choose|k: int| 0 <= k < coords.len() && reaches(#[trigger] coords[k], x);
    if found < i {
        lemma_alignment_spacing(version, found, i);
    } else if i < found {
        lemma_alignment_spacing(version, i, found);
    }
}

/// A coordinate that patterns reach is reached by those of the coordinate
/// that `reaching` names.
pub proof fn lemma_reached(version: int, x: int)
    requires
        2 <= version <= 40,
    ensures
        reaching(alignment_coordinates(version), x) matches Some(i) ==> 0 <= i
            < alignment_coordinates(version).len() && reaches(
            alignment_coordinates(version)[i],
            x,
        ),
{
}

/// An alignment coordinate lies inside the symbol, at least 6 modules from
/// either edge; only the first lies within 7 modules of the near edge and
/// only the last within 8 modules of the far edge.
pub proof fn lemma_coordinate_position(version: int, i: int)
    requires
        2 <= version <= 40,
        0 <= i < alignment_coordinates(version).len(),
    ensures
        6 <= alignment_coordinates(version)[i] <= side(version) - 7,
        alignment_coordinates(version)[i] <= 7 <==> i == 0,
        alignment_coordinates(version)[i] >= side(version) - 8 <==> i == alignment_coordinates(
            version,
        ).len() - 1,
{
    let coords = alignment_coordinates(version);
    let n = coords.len() as int;
    lemma_alignment_coordinates(version);
    if 0 < i {
        lemma_alignment_spacing(version, 0, i);
    }
    if i < n - 1 {
        lemma_alignment_spacing(version, i, n - 1);
    }
}

proof fn lemma_pair_index(n: int, i: int, j: int, i2: int, j2: int)
    by (nonlinear_arith)
    requires
        0 <= j < n,
        0 <= j2 < n,
        i * n + j == i2 * n + j2,
    ensures
        i == i2,
        j == j2,
{
}

proof fn lemma_pair_of_index(n: int, k: int)
    requires
        0 < n,
        0 <= k < n * n,
    ensures
        0 <= k / n < n,
        0 <= k % n < n,
        (k / n) * n + k % n == k,
{
    vstd::arithmetic::div_mod::lemma_fundamental_div_mod(k, n);
    vstd::arithmetic::div_mod::lemma_mod_bound(k, n);
    let q = k / n;
    let r = k % n;
    assert(0 <= q < n && q * n + r == k) by (nonlinear_arith)
        requires
            0 < n,
            0 <= k < n * n,
            k == n * q + r,
            0 <= r < n,
    ;
}

/// The grid after the attempts at the first `k` pairs of alignment
/// coordinates, module by module, and the number of patterns drawn by
/// then: every pair has got its pattern but those that fall on finder
/// patterns.
pub proof fn lemma_alignment_progress(version: int, k: int)
    requires
        2 <= version <= 40,
        0 <= k <= alignment_coordinates(version).len() * alignment_coordinates(version).len(),
    ensures
        with_alignment_patterns(
            before_alignment(version),
            side(version),
            coordinate_pairs(alignment_coordinates(version)).take(k),
        ).len() == side(version) * side(version),
        forall|x: int, y: int|
            in_grid(side(version), x, y) ==> #[trigger] module_at(
                with_alignment_patterns(
                    before_alignment(version),
                    side(version),
                    coordinate_pairs(alignment_coordinates(version)).take(k),
                ),
                side(version),
                x,
                y,
            ) == alignment_module(version, k, x, y),
        patterns_drawn(
            before_alignment(version),
            side(version),
            coordinate_pairs(alignment_coordinates(version)).take(k),
        ) == k - collisions_before(alignment_coordinates(version).len() as int, k),
    decreases k,
{
    let s = side(version);
    let coords = alignment_coordinates(version);
    let n = coords.len() as int;
    let centres = coordinate_pairs(coords);
    let base = before_alignment(version);
    lemma_alignment_coordinates(version);
    assert(centres.len() == n * n);
    assert((n - 1) * n >= n) by (nonlinear_arith)
        requires
            n >= 2,
    ;
    if k == 0 {
        lemma_before_alignment(version, 0, 0);
        assert forall|x: int, y: int| in_grid(s, x, y) implies #[trigger] module_at(
            with_alignment_patterns(base, s, centres.take(0)),
            s,
            x,
            y,
        ) == alignment_module(version, 0, x, y) by {
            lemma_reached(version, x);
            lemma_reached(version, y);
            match (reaching(coords, x), reaching(coords, y)) {
                (Some(i), Some(j)) => {
                    assert(i * n + j >= 0) by (nonlinear_arith)
                        requires
                            i >= 0,
                            j >= 0,
                            n >= 0,
                    ;
                },
                _ => {},
            }
        }
    } else {
        let m = k - 1;
        lemma_alignment_progress(version, m);
        let before = with_alignment_patterns(base, s, centres.take(m));
        let after = with_alignment_patterns(base, s, centres.take(k));
        assert(centres.take(k).drop_last() =~= centres.take(m));
        lemma_pair_of_index(n, m);
        let i0 = m / n;
        let j0 = m % n;
        let cx = coords[i0];
        let cy = coords[j0];
        assert(after == with_alignment_pattern(before, s, cx, cy));
        lemma_coordinate_position(version, i0);
        lemma_coordinate_position(version, j0);
        lemma_reaching(version, i0, cx);
        lemma_reaching(version, j0, cy);
        lemma_before_alignment(version, cx, cy);
        // the centre is as it was before any pattern was drawn
        let collides = collides_with_finder(n, i0, j0);
        // which indices collide
        assert(collides == (m == 0 || m == n - 1 || m == (n - 1) * n)) by {
            if m == 0 {
                lemma_pair_index(n, i0, j0, 0, 0);
            }
            if m == n - 1 {
                lemma_pair_index(n, i0, j0, 0, n - 1);
            }
            if m == (n - 1) * n {
                lemma_pair_index(n, i0, j0, n - 1, 0);
            }
            if i0 == 0 && j0 == n - 1 {
                assert(i0 * n + j0 == n - 1) by (nonlinear_arith)
                    requires
                        i0 == 0,
                        j0 == n - 1,
                ;
            }
            if i0 == 0 && j0 == 0 {
                assert(i0 * n + j0 == 0) by (nonlinear_arith)
                    requires
                        i0 == 0,
                        j0 == 0,
                ;
            }
        }
        assert forall|x: int, y: int| in_grid(s, x, y) implies #[trigger] module_at(
            after,
            s,
            x,
            y,
        ) == alignment_module(version, k, x, y) by {
            lemma_reached(version, x);
            lemma_reached(version, y);
            let in_block = cx - 2 <= x < cx + 3 && cy - 2 <= y < cy + 3;
            if in_block {
                lemma_reaching(version, i0, x);
                lemma_reaching(version, j0, y);
            }
            match (reaching(coords, x), reaching(coords, y)) {
                (Some(i), Some(j)) => {
                    if i * n + j == m {
                        lemma_pair_index(n, i, j, i0, j0);
                    }
                },
                _ => {},
            }
            if !collides {
                lemma_stamped_module(
                    before,
                    s,
                    Pattern::Alignment,
                    cx - 2,
                    cy - 2,
                    5,
                    5,
                    x,
                    y,
                );
            }
        }
        if !collides {
            lemma_stamped_module(before, s, Pattern::Alignment, cx - 2, cy - 2, 5, 5, cx, cy);
        }
    }
}

/// A symbol of version 2 or more gets an alignment pattern at every pair
/// of its alignment coordinates but the three that fall on finder
/// patterns: with `n` coordinates, `n * n - 3` patterns are drawn. Where a
/// pattern is drawn, its 25 modules are in place once all are drawn; where
/// it is skipped, the modules of the finder pattern and its separator stay.
pub proof fn lemma_alignment_patterns_placed(version: int)
    requires
        2 <= version <= 40,
    ensures
        patterns_drawn(
            before_alignment(version),
            side(version),
            coordinate_pairs(alignment_coordinates(version)),
        ) == alignment_coordinates(version).len() * alignment_coordinates(version).len() - 3,
        forall|i: int, j: int, x: int, y: int|
            0 <= i < alignment_coordinates(version).len() && 0 <= j < alignment_coordinates(
                version,
            ).len() && reaches(alignment_coordinates(version)[i], x) && reaches(
                alignment_coordinates(version)[j],
                y,
            ) && in_grid(side(version), x, y) ==> #[trigger] module_at(
                with_alignment(before_alignment(version), side(version), version),
                side(version),
                x,
                y,
            ) == (if collides_with_finder(alignment_coordinates(version).len() as int, i, j) {
                module_at(before_alignment(version), side(version), x, y)
            } else {
                Bit::of(
                    Pattern::Alignment.dark_at(
                        x - #[trigger] alignment_coordinates(version)[i] + 2,
                        y - #[trigger] alignment_coordinates(version)[j] + 2,
                    ),
                    true,
                )
            }),
{
    let s = side(version);
    let coords = alignment_coordinates(version);
    let n = coords.len() as int;
    let centres = coordinate_pairs(coords);
    lemma_alignment_coordinates(version);
    assert(n * n >= 4 && (n - 1) * n < n * n && n - 1 < n * n) by (nonlinear_arith)
        requires
            n >= 2,
    ;
    lemma_alignment_progress(version, n * n);
    assert(centres.take(n * n) =~= centres);
    let all = with_alignment(before_alignment(version), s, version);
    assert forall|i: int, j: int, x: int, y: int|
        0 <= i < n && 0 <= j < n && reaches(coords[i], x) && reaches(coords[j], y) && in_grid(
            s,
            x,
            y,
        ) implies #[trigger] module_at(all, s, x, y) == (if collides_with_finder(n, i, j) {
        module_at(before_alignment(version), s, x, y)
    } else {
        Bit::of(
            Pattern::Alignment.dark_at(x - #[trigger] coords[i] + 2, y - #[trigger] coords[j] + 2),
            true,
        )
    }) by {
        lemma_reaching(version, i, x);
        lemma_reaching(version, j, y);
        assert(i * n + j < n * n) by (nonlinear_arith)
            requires
                0 <= i < n,
                0 <= j < n,
        ;
    }
}

/// Whether an alignment pattern of the version covers the module at
/// `(x, y)`.
pub open spec fn in_alignment_pattern(version: int, x: int, y: int) -> bool {
    let coords = alignment_coordinates(version);
    match (reaching(coords, x), reaching(coords, y)) {
        (Some(i), Some(j)) => !collides_with_finder(coords.len() as int, i, j),
        _ => false,
    }
}

/// Whether the module at `(x, y)` belongs to a function pattern of a symbol
/// of the version: to a finder pattern or its separator, to an alignment
/// pattern, to row 6 or column 6 with the timing patterns, to the format
/// or the version information, or is the dark module.
pub open spec fn is_function_module(version: int, x: int, y: int) -> bool {
    let s = side(version);
    ||| in_finder_corner(s, x, y)
    ||| in_alignment_pattern(version, x, y)
    ||| x == 6
    ||| y == 6
    ||| (x == 8 && y == s - 8)
    ||| format_bit_index(s, x, y) is Some
    ||| (version >= 7 && version_bit_index(s, x, y) is Some)
}

/// Once all alignment patterns are drawn on the finder patterns and their
/// separators, the reserved modules are those of the three corners and
/// those of the alignment patterns.
pub proof fn lemma_after_alignment(version: int, x: int, y: int)
    requires
        1 <= version <= 40,
        in_grid(side(version), x, y),
    ensures
        with_alignment(before_alignment(version), side(version), version).len() == side(version)
            * side(version),
        module_at(
            with_alignment(before_alignment(version), side(version), version),
            side(version),
            x,
            y,
        ).reserved() == (in_finder_corner(side(version), x, y) || in_alignment_pattern(
            version,
            x,
            y,
        )),
{
    let coords = alignment_coordinates(version);
    let n = coords.len() as int;
    let centres = coordinate_pairs(coords);
    lemma_before_alignment(version, x, y);
    if version == 1 {
        lemma_no_alignment_in_version_1();
        assert(centres.len() == 0) by (nonlinear_arith)
            requires
                centres.len() == n * n,
                n == 0,
        ;
    } else {
        lemma_alignment_coordinates(version);
        lemma_alignment_progress(version, n * n);
        assert(centres.take(n * n) =~= centres);
        lemma_reached(version, x);
        lemma_reached(version, y);
        match (reaching(coords, x), reaching(coords, y)) {
            (Some(i), Some(j)) => {
                assert(i * n + j < n * n) by (nonlinear_arith)
                    requires
                        0 <= i < n,
                        0 <= j < n,
                ;
                if collides_with_finder(n, i, j) {
                    lemma_coordinate_position(version, i);
                    lemma_coordinate_position(version, j);
                }
            },
            _ => {},
        }
    }
}

/// The reserved modules of a symbol with all its function patterns, drawn
/// on a blank grid, are the function modules of its version: where they
/// lie depends on neither the error-correction level nor the mask pattern.
pub proof fn lemma_function_modules_are_reserved(
    version: int,
    level: int,
    mask: MaskPattern,
    x: int,
    y: int,
)
    requires
        1 <= version <= 40,
        in_grid(side(version), x, y),
    ensures
        with_function_patterns(blank(side(version)), version, level, mask).len() == side(version)
            * side(version),
        module_at(
            with_function_patterns(blank(side(version)), version, level, mask),
            side(version),
            x,
            y,
        ).reserved() == is_function_module(version, x, y),
{
    let s = side(version);
    let aligned = with_alignment(before_alignment(version), s, version);
    lemma_after_alignment(version, x, y);
    let timing = with_timing(aligned, s);
    lemma_painted_module(aligned, s, timing_paint(s), x, y);
    let dark = with_dark_module(timing, s, version);
    lemma_stamped_module(timing, s, Pattern::Dark, 8, 4 * version + 9, 1, 1, x, y);
    let format = with_format(dark, s, level, mask);
    lemma_painted_module(dark, s, format_paint(s, format_modules(level, mask)), x, y);
    if version >= 7 {
        lemma_painted_module(format, s, version_paint(s, version_modules(version)), x, y);
    }
    if version >= 2 {
        lemma_reached(version, x);
        lemma_reached(version, y);
        lemma_alignment_coordinates(version);
        if x == 6 {
            lemma_reaching(version, 0, x);
        }
        if y == 6 {
            lemma_reaching(version, 0, y);
        }
    } else {
        lemma_no_alignment_in_version_1();
    }
}

} // verus!
