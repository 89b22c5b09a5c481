//! How many modules of a symbol are free for data: the function patterns
//! leave as many as the codewords of the symbol need, and fewer than eight
//! more.
use crate::alignment::{
    is_function_module, lemma_coordinate_position, lemma_function_modules_are_reserved,
    lemma_reached, lemma_reaching, reaching,
};
use crate::bit::Bit;
use crate::ec::{lemma_stream_lengths, EcLevel};
use crate::encoding::Encoding;
use crate::format::bytes_of_modules;
use crate::layout::{
    blank, free_before_pair, free_in_pair, in_grid, module_at, pair_cell, pair_right,
    placement_rank, side, with_data, with_function_patterns,
};
use crate::mask::MaskPattern;
use crate::placement::lemma_placed_module;
use crate::preprocessor::{fits, framed, lemma_framed_fills_data_codewords, symbol_stream};
use crate::tables::alignment::{
    alignment_coordinates, lemma_alignment_coordinates, lemma_alignment_spacing,
    lemma_no_alignment_in_version_1,
};
use crate::tables::blocks::{
    codewords_in_symbol, ec_codewords_per_block, lemma_block_structure,
    lemma_codewords_fill_modules, raw_modules,
};
use vstd::prelude::*;

verus! {

/// How many of the modules of column `x` in the rows from `from` up to but
/// not including `to` belong to no function pattern.
pub open spec fn free_rows(version: int, x: int, from: int, to: int) -> int
    decreases to - from,
{
    if to <= from {
        0
    } else {
        free_rows(version, x, from, to - 1) + (if is_function_module(version, x, to - 1) {
            0int
        } else {
            1int
        })
    }
}

/// How many of the coordinates from `from` up to but not including `to` an
/// alignment pattern of the version can reach.
pub open spec fn reached_between(version: int, from: int, to: int) -> int
    decreases to - from,
{
    if to <= from {
        0
    } else {
        reached_between(version, from, to - 1) + (if reaching(
            alignment_coordinates(version),
            to - 1,
        ) is Some {
            1int
        } else {
            0int
        })
    }
}

/// The number of alignment coordinates of a version.
pub open spec fn coordinate_count(version: int) -> int {
    alignment_coordinates(version).len() as int
}

/// The free modules of a run of rows are those of its two parts together.
pub proof fn lemma_free_rows_split(version: int, x: int, from: int, mid: int, to: int)
    requires
        from <= mid <= to,
    ensures
        free_rows(version, x, from, to) == free_rows(version, x, from, mid) + free_rows(
            version,
            x,
            mid,
            to,
        ),
    decreases to - mid,
{
    if mid < to {
        lemma_free_rows_split(version, x, from, mid, to - 1);
    }
}

/// A run of rows of which all or none belong to function patterns.
pub proof fn lemma_free_rows_run(version: int, x: int, from: int, to: int, free: bool)
    requires
        from <= to,
        forall|y: int| from <= y < to ==> #[trigger] is_function_module(version, x, y) == !free,
    ensures
        free_rows(version, x, from, to) == (if free {
            to - from
        } else {
            0
        }),
    decreases to - from,
{
    if from < to {
        lemma_free_rows_run(version, x, from, to - 1, free);
    }
}

/// The reached coordinates of a run are those of its two parts together.
pub proof fn lemma_reached_split(version: int, from: int, mid: int, to: int)
    requires
        from <= mid <= to,
    ensures
        reached_between(version, from, to) == reached_between(version, from, mid)
            + reached_between(version, mid, to),
    decreases to - mid,
{
    if mid < to {
        lemma_reached_split(version, from, mid, to - 1);
    }
}

/// A run of coordinates of which all or none are reached.
pub proof fn lemma_reached_run(version: int, from: int, to: int, reached: bool)
    requires
        from <= to,
        forall|y: int|
            from <= y < to ==> (#[trigger] reaching(alignment_coordinates(version), y) is Some)
                == reached,
    ensures
        reached_between(version, from, to) == (if reached {
            to - from
        } else {
            0
        }),
    decreases to - from,
{
    if from < to {
        lemma_reached_run(version, from, to - 1, reached);
    }
}

/// No alignment pattern reaches a coordinate that lies three or more away
/// from every alignment coordinate.
pub proof fn lemma_not_reached(version: int, y: int, below: int)
    requires
        2 <= version <= 40,
        0 <= below <= coordinate_count(version),
        below > 0 ==> alignment_coordinates(version)[below - 1] + 3 <= y,
        below < coordinate_count(version) ==> y + 3 <= alignment_coordinates(version)[below],
    ensures
        reaching(alignment_coordinates(version), y) is None,
{
    let coords = alignment_coordinates(version);
    if reaching(coords, y) is Some {
        lemma_reached(version, y);
        let k = reaching(coords, y)->0;
        if k < below - 1 {
            lemma_alignment_spacing(version, k, below - 1);
        }
        if k > below {
            lemma_alignment_spacing(version, below, k);
        }
    }
}

/// Which coordinates within nine of the near edge and within eleven of the
/// far edge the alignment patterns reach: those within two of the first
/// and of the last alignment coordinate.
pub proof fn lemma_reaching_near_edges(version: int, y: int)
    requires
        1 <= version <= 40,
    ensures
        0 <= y < 9 ==> reaching(alignment_coordinates(version), y) == (if version >= 2 && 4 <= y {
            Some(0int)
        } else {
            None
        }),
        side(version) - 11 <= y < side(version) ==> reaching(alignment_coordinates(version), y)
            == (if version >= 2 && side(version) - 9 <= y <= side(version) - 5 {
            Some(coordinate_count(version) - 1)
        } else {
            None
        }),
{
    let s = side(version);
    let n = coordinate_count(version);
    if version == 1 {
        lemma_no_alignment_in_version_1();
    } else {
        lemma_alignment_coordinates(version);
        lemma_coordinate_position(version, 0);
        lemma_coordinate_position(version, n - 1);
        lemma_alignment_spacing(version, 0, n - 1);
        if 0 <= y < 9 {
            if 4 <= y {
                lemma_reaching(version, 0, y);
            } else {
                lemma_not_reached(version, y, 0);
            }
        }
        if s - 11 <= y < s {
            if s - 9 <= y <= s - 5 {
                lemma_reaching(version, n - 1, y);
            } else if y < s - 9 {
                if n >= 2 {
                    lemma_alignment_spacing(version, n - 2, n - 1);
                }
                lemma_not_reached(version, y, n - 1);
            } else {
                lemma_not_reached(version, y, n);
            }
        }
    }
}

/// Between the bands of nine coordinates at the near edge and eleven at the
/// far edge, the alignment patterns reach five coordinates for each
/// alignment coordinate but the first and the last, and every coordinate
/// they reach there belongs to such an alignment coordinate.
pub proof fn lemma_reached_in_the_middle(version: int)
    requires
        1 <= version <= 40,
    ensures
        reached_between(version, 9, side(version) - 11) == (if version >= 2 {
            5 * (coordinate_count(version) - 2)
        } else {
            0
        }),
        forall|y: int|
            9 <= y < side(version) - 11 ==> (#[trigger] reaching(
                alignment_coordinates(version),
                y,
            ) matches Some(j) ==> 0 < j < coordinate_count(version) - 1),
{
    let s = side(version);
    let coords = alignment_coordinates(version);
    let n = coordinate_count(version);
    if version == 1 {
        lemma_no_alignment_in_version_1();
        lemma_reached_run(version, 9, s - 11, false);
    } else {
        lemma_alignment_coordinates(version);
        lemma_reached_prefix(version, n - 2);
        lemma_alignment_spacing(version, n - 2, n - 1);
        assert forall|y: int| coords[n - 2] + 3 <= y < s - 11 implies (#[trigger] reaching(
            coords,
            y,
        ) is Some) == false by {
            lemma_not_reached(version, y, n - 1);
        }
        lemma_reached_run(version, coords[n - 2] + 3, s - 11, false);
        lemma_reached_split(version, 9, coords[n - 2] + 3, s - 11);
        assert forall|y: int| 9 <= y < s - 11 implies (#[trigger] reaching(coords, y) matches Some(
            j,
        ) ==> 0 < j < n - 1) by {
            lemma_reached(version, y);
            if reaching(coords, y) is Some {
                let j = reaching(coords, y)->0;
                lemma_coordinate_position(version, j);
            }
        }
    }
}

proof fn lemma_reached_prefix(version: int, j: int)
    requires
        2 <= version <= 40,
        0 <= j <= coordinate_count(version) - 2,
    ensures
        reached_between(version, 9, alignment_coordinates(version)[j] + 3) == 5 * j,
    decreases j,
{
    let coords = alignment_coordinates(version);
    lemma_alignment_coordinates(version);
    if j > 0 {
        lemma_reached_prefix(version, j - 1);
        lemma_alignment_spacing(version, j - 1, j);
        let gap_from = coords[j - 1] + 3;
        let from = coords[j] - 2;
        let to = coords[j] + 3;
        assert forall|y: int| gap_from <= y < from implies (#[trigger] reaching(coords, y) is Some)
            == false by {
            lemma_not_reached(version, y, j);
        }
        assert forall|y: int| from <= y < to implies (#[trigger] reaching(coords, y) is Some)
            == true by {
            lemma_reaching(version, j, y);
        }
        lemma_reached_run(version, gap_from, from, false);
        lemma_reached_run(version, from, to, true);
        lemma_reached_split(version, 9, gap_from, from);
        lemma_reached_split(version, 9, from, to);
    }
}

/// How many modules of column `x` belong to no function pattern: what the
/// patterns leave of the `side` modules of the column.
pub open spec fn column_room(version: int, x: int) -> int {
    let s = side(version);
    let n = coordinate_count(version);
    let with_version = if version >= 7 {
        1int
    } else {
        0int
    };
    let patterns = if version >= 2 {
        1int
    } else {
        0int
    };
    if x == 6 {
        0
    } else if x <= 3 {
        s - 17 - 3 * with_version
    } else if x <= 5 {
        s - 17 - 3 * with_version - 5 * (n - 2) * patterns
    } else if x <= 8 {
        s - 17 - 5 * (n - 2) * patterns
    } else if x < s - 11 {
        if reaching(alignment_coordinates(version), x) is Some {
            s - 5 * n
        } else {
            s - 1
        }
    } else if x < s - 9 {
        s - 1 - 6 * with_version
    } else if x == s - 9 {
        s - 1 - 6 * with_version - 5 * (n - 1) * patterns
    } else if x < s - 4 {
        s - 9 - 5 * (n - 1) * patterns
    } else {
        s - 9
    }
}

/// The free modules of a column between the bands of nine rows at the top
/// and eleven at the bottom: all of them, unless the alignment patterns
/// reach the column; then those of the rows that they reach are taken.
pub proof fn lemma_free_rows_in_the_middle(version: int, x: int, to: int)
    requires
        1 <= version <= 40,
        0 <= x < side(version),
        x != 6,
        9 <= to <= side(version) - 11,
    ensures
        free_rows(version, x, 9, to) == to - 9 - (if reaching(alignment_coordinates(version), x)
            is Some {
            reached_between(version, 9, to)
        } else {
            0
        }),
    decreases to,
{
    if to > 9 {
        lemma_free_rows_in_the_middle(version, x, to - 1);
        let y = to - 1;
        let coords = alignment_coordinates(version);
        lemma_reached_in_the_middle(version);
        assert(is_function_module(version, x, y) == (reaching(coords, x) is Some && reaching(
            coords,
            y,
        ) is Some));
    }
}

/// Whether the alignment patterns reach a column, for the columns near the
/// left and the right edge, and what they reach in the columns between.
pub proof fn lemma_reaching_column(version: int, x: int)
    requires
        1 <= version <= 40,
        0 <= x < side(version),
    ensures
        x < 9 ==> reaching(alignment_coordinates(version), x) == (if version >= 2 && 4 <= x {
            Some(0int)
        } else {
            None
        }),
        side(version) - 11 <= x ==> reaching(alignment_coordinates(version), x) == (if version
            >= 2 && side(version) - 9 <= x <= side(version) - 5 {
            Some(coordinate_count(version) - 1)
        } else {
            None
        }),
        9 <= x < side(version) - 11 ==> (reaching(alignment_coordinates(version), x) matches Some(
            i,
        ) ==> 0 < i < coordinate_count(version) - 1),
        version >= 2 ==> coordinate_count(version) >= 2,
        version == 1 ==> coordinate_count(version) == 0,
{
    lemma_reaching_near_edges(version, x);
    lemma_reached_in_the_middle(version);
    if version >= 2 {
        lemma_alignment_coordinates(version);
    } else {
        lemma_no_alignment_in_version_1();
    }
}

/// The free modules of a column among its top nine rows.
pub proof fn lemma_free_rows_at_the_top(version: int, x: int)
    requires
        1 <= version <= 40,
        0 <= x < side(version),
        x != 6,
    ensures
        free_rows(version, x, 0, 9) == (if x <= 8 || x >= side(version) - 8 {
            0int
        } else if x < side(version) - 11 {
            if reaching(alignment_coordinates(version), x) is Some {
                4int
            } else {
                8int
            }
        } else if version >= 7 {
            2int
        } else {
            8int
        }),
{
    let s = side(version);
    let coords = alignment_coordinates(version);
    lemma_reaching_column(version, x);
    assert forall|y: int| 0 <= y < 9 implies reaching(coords, y) == (if version >= 2 && 4 <= y {
        Some(0int)
    } else {
        None
    }) by {
        lemma_reaching_near_edges(version, y);
    }
    if x <= 8 || x >= s - 8 {
        lemma_free_rows_run(version, x, 0, 9, false);
    } else if x < s - 11 {
        let covered = reaching(coords, x) is Some;
        lemma_free_rows_run(version, x, 0, 4, true);
        lemma_free_rows_run(version, x, 4, 6, !covered);
        lemma_free_rows_run(version, x, 6, 7, false);
        lemma_free_rows_run(version, x, 7, 9, !covered);
        lemma_free_rows_split(version, x, 0, 4, 6);
        lemma_free_rows_split(version, x, 0, 6, 7);
        lemma_free_rows_split(version, x, 0, 7, 9);
    } else {
        lemma_free_rows_run(version, x, 0, 6, version < 7);
        lemma_free_rows_run(version, x, 6, 7, false);
        lemma_free_rows_run(version, x, 7, 9, true);
        lemma_free_rows_split(version, x, 0, 6, 7);
        lemma_free_rows_split(version, x, 0, 7, 9);
    }
}

/// The free modules of a column among its bottom eleven rows.
pub proof fn lemma_free_rows_at_the_bottom(version: int, x: int)
    requires
        1 <= version <= 40,
        0 <= x < side(version),
        x != 6,
    ensures
        free_rows(version, x, side(version) - 11, side(version)) == (if x <= 5 {
            if version >= 7 {
                0int
            } else {
                3int
            }
        } else if x <= 8 {
            3int
        } else if reaching(alignment_coordinates(version), x) is Some {
            6int
        } else {
            11int
        }),
{
    let s = side(version);
    let coords = alignment_coordinates(version);
    let n = coordinate_count(version);
    lemma_reaching_column(version, x);
    assert forall|y: int| s - 11 <= y < s implies reaching(coords, y) == (if version >= 2 && s - 9
        <= y <= s - 5 {
        Some(n - 1)
    } else {
        None
    }) by {
        lemma_reaching_near_edges(version, y);
    }
    if x <= 8 {
        lemma_free_rows_run(version, x, s - 11, s - 8, !(x <= 5 && version >= 7));
        lemma_free_rows_run(version, x, s - 8, s, false);
        lemma_free_rows_split(version, x, s - 11, s - 8, s);
    } else {
        let covered = reaching(coords, x) is Some;
        lemma_free_rows_run(version, x, s - 11, s - 9, true);
        lemma_free_rows_run(version, x, s - 9, s - 4, !covered);
        lemma_free_rows_run(version, x, s - 4, s, true);
        lemma_free_rows_split(version, x, s - 11, s - 9, s - 4);
        lemma_free_rows_split(version, x, s - 11, s - 4, s);
    }
}

/// The number of free modules of every column.
pub proof fn lemma_column_room(version: int, x: int)
    requires
        1 <= version <= 40,
        0 <= x < side(version),
    ensures
        free_rows(version, x, 0, side(version)) == column_room(version, x),
{
    let s = side(version);
    let n = coordinate_count(version);
    if x == 6 {
        lemma_free_rows_run(version, x, 0, s, false);
    } else {
        lemma_reaching_column(version, x);
        lemma_reached_in_the_middle(version);
        lemma_free_rows_at_the_top(version, x);
        lemma_free_rows_in_the_middle(version, x, s - 11);
        lemma_free_rows_at_the_bottom(version, x);
        lemma_free_rows_split(version, x, 0, 9, s - 11);
        lemma_free_rows_split(version, x, 0, s - 11, s);
        assert(5 * (n - 2) * 1 == 5 * (n - 2) && 5 * (n - 1) * 1 == 5 * (n - 1) && 5 * (n - 2)
            * 0 == 0 && 5 * (n - 1) * 0 == 0);
    }
}

/// How many modules of the columns from `from` up to but not including
/// `to` belong to no function pattern.
pub open spec fn free_columns(version: int, from: int, to: int) -> int
    decreases to - from,
{
    if to <= from {
        0
    } else {
        free_columns(version, from, to - 1) + free_rows(version, to - 1, 0, side(version))
    }
}

/// The number of modules of a symbol that belong to no function pattern,
/// by the version: the square of the side, less the finder patterns with
/// their separators, the timing patterns, the dark module, the format
/// information, the alignment patterns and, from version 7 on, the version
/// information.
pub open spec fn data_modules(version: int) -> int {
    let n = coordinate_count(version);
    16 * version * version + 128 * version + 64 - (if version >= 2 {
        25 * n * n - 10 * n - 55
    } else {
        0
    }) - (if version >= 7 {
        36int
    } else {
        0int
    })
}

/// The free modules of a run of columns are those of its two parts
/// together.
pub proof fn lemma_free_columns_split(version: int, from: int, mid: int, to: int)
    requires
        from <= mid <= to,
    ensures
        free_columns(version, from, to) == free_columns(version, from, mid) + free_columns(
            version,
            mid,
            to,
        ),
    decreases to - mid,
{
    if mid < to {
        lemma_free_columns_split(version, from, mid, to - 1);
    }
}

proof fn lemma_free_columns_in_the_middle(version: int, to: int)
    requires
        1 <= version <= 40,
        9 <= to <= side(version) - 11,
    ensures
        free_columns(version, 9, to) == (to - 9) * (side(version) - 1) - (5 * coordinate_count(
            version,
        ) - 1) * reached_between(version, 9, to),
    decreases to,
{
    let s = side(version);
    let n = coordinate_count(version);
    if to > 9 {
        let x = to - 1;
        lemma_free_columns_in_the_middle(version, x);
        lemma_column_room(version, x);
        let before = reached_between(version, 9, x);
        assert((to - 9) * (s - 1) == (x - 9) * (s - 1) + (s - 1)) by (nonlinear_arith)
            requires
                x == to - 1,
        ;
        assert((5 * n - 1) * (before + 1) == (5 * n - 1) * before + (5 * n - 1))
            by (nonlinear_arith);
    } else {
        assert((to - 9) * (s - 1) == 0) by (nonlinear_arith)
            requires
                to == 9,
        ;
    }
}

proof fn lemma_free_columns_on_the_left(version: int)
    requires
        1 <= version <= 40,
    ensures
        free_columns(version, 0, 9) == 8 * side(version) - 136 - (if version >= 7 {
            18int
        } else {
            0int
        }) - (if version >= 2 {
            20 * (coordinate_count(version) - 2)
        } else {
            0
        }),
{
    lemma_column_room(version, 0);
    lemma_column_room(version, 1);
    lemma_column_room(version, 2);
    lemma_column_room(version, 3);
    lemma_column_room(version, 4);
    lemma_column_room(version, 5);
    lemma_column_room(version, 6);
    lemma_column_room(version, 7);
    lemma_column_room(version, 8);
    reveal_with_fuel(free_columns, 10);
}

proof fn lemma_free_columns_on_the_right(version: int)
    requires
        1 <= version <= 40,
    ensures
        free_columns(version, side(version) - 11, side(version)) == 11 * side(version) - 75
            - (if version >= 7 {
            18int
        } else {
            0int
        }) - (if version >= 2 {
            25 * (coordinate_count(version) - 1)
        } else {
            0
        }),
{
    let s = side(version);
    lemma_column_room(version, s - 11);
    lemma_column_room(version, s - 10);
    lemma_column_room(version, s - 9);
    lemma_column_room(version, s - 8);
    lemma_column_room(version, s - 7);
    lemma_column_room(version, s - 6);
    lemma_column_room(version, s - 5);
    lemma_column_room(version, s - 4);
    lemma_column_room(version, s - 3);
    lemma_column_room(version, s - 2);
    lemma_column_room(version, s - 1);
    reveal_with_fuel(free_columns, 12);
}

/// The function patterns of a symbol leave `data_modules` of its modules
/// free.
pub proof fn lemma_free_modules(version: int)
    requires
        1 <= version <= 40,
    ensures
        free_columns(version, 0, side(version)) == data_modules(version),
        free_rows(version, 6, 0, side(version)) == 0,
{
    let s = side(version);
    let n = coordinate_count(version);
    lemma_free_columns_on_the_left(version);
    lemma_free_columns_in_the_middle(version, s - 11);
    lemma_free_columns_on_the_right(version);
    lemma_reached_in_the_middle(version);
    lemma_free_columns_split(version, 0, 9, s - 11);
    lemma_free_columns_split(version, 0, s - 11, s);
    lemma_column_room(version, 6);
    let middle = (s - 20) * (s - 1);
    assert(middle == 16 * version * version + 52 * version - 48) by (nonlinear_arith)
        requires
            middle == (s - 20) * (s - 1),
            s == 17 + 4 * version,
    ;
    if version >= 2 {
        lemma_alignment_coordinates(version);
        let taken = (5 * n - 1) * (5 * (n - 2));
        assert(taken == 25 * n * n - 55 * n + 10) by (nonlinear_arith)
            requires
                taken == (5 * n - 1) * (5 * (n - 2)),
        ;
    } else {
        lemma_no_alignment_in_version_1();
        assert((5 * n - 1) * 0 == 0);
    }
}

/// The grid of a symbol with all its function patterns and nothing else.
pub open spec fn function_grid(version: int, level: EcLevel, mask: MaskPattern) -> Seq<Bit> {
    with_function_patterns(blank(side(version)), version, level.index(), mask)
}

proof fn lemma_free_row_at_the_low_end(version: int, x: int, from: int, to: int)
    requires
        from < to,
    ensures
        free_rows(version, x, from, to) == free_rows(version, x, from + 1, to) + (
        if is_function_module(version, x, from) {
            0int
        } else {
            1int
        }),
{
    lemma_free_rows_split(version, x, from, from + 1, to);
    reveal_with_fuel(free_rows, 2);
}

proof fn lemma_free_columns_at_the_low_end(version: int, from: int, to: int)
    requires
        from + 2 <= to,
    ensures
        free_columns(version, from, to) == free_columns(version, from + 2, to) + free_rows(
            version,
            from,
            0,
            side(version),
        ) + free_rows(version, from + 1, 0, side(version)),
{
    lemma_free_columns_split(version, from, from + 2, to);
    reveal_with_fuel(free_columns, 3);
}

proof fn lemma_free_in_pair_by_rows(
    version: int,
    level: EcLevel,
    mask: MaskPattern,
    p: int,
    k: int,
)
    requires
        1 <= version <= 40,
        0 <= p < (side(version) - 1) / 2,
        0 <= k <= side(version),
    ensures
        free_in_pair(function_grid(version, level, mask), side(version), p, (2 * k) as nat) == (
        if p % 2 == 0 {
            free_rows(version, pair_right(side(version), p), side(version) - k, side(version))
                + free_rows(
                version,
                pair_right(side(version), p) - 1,
                side(version) - k,
                side(version),
            )
        } else {
            free_rows(version, pair_right(side(version), p), 0, k) + free_rows(
                version,
                pair_right(side(version), p) - 1,
                0,
                k,
            )
        }),
    decreases k,
{
    let s = side(version);
    let grid = function_grid(version, level, mask);
    let right = pair_right(s, p);
    if k > 0 {
        lemma_free_in_pair_by_rows(version, level, mask, p, k - 1);
        let y = if p % 2 == 0 {
            s - k
        } else {
            k - 1
        };
        lemma_function_modules_are_reserved(version, level.index(), mask, right, y);
        lemma_function_modules_are_reserved(version, level.index(), mask, right - 1, y);
        reveal_with_fuel(free_in_pair, 3);
        assert(free_in_pair(grid, s, p, (2 * k) as nat) == free_in_pair(
            grid,
            s,
            p,
            (2 * k - 2) as nat,
        ) + (if is_function_module(version, right, y) {
            0int
        } else {
            1int
        }) + (if is_function_module(version, right - 1, y) {
            0int
        } else {
            1int
        }));
        if p % 2 == 0 {
            lemma_free_row_at_the_low_end(version, right, s - k, s);
            lemma_free_row_at_the_low_end(version, right - 1, s - k, s);
        }
    }
}

proof fn lemma_free_before_pair_by_columns(
    version: int,
    level: EcLevel,
    mask: MaskPattern,
    p: int,
)
    requires
        1 <= version <= 40,
        0 <= p <= (side(version) - 1) / 2,
    ensures
        free_before_pair(function_grid(version, level, mask), side(version), p as nat) == (if p
            <= (side(version) - 7) / 2 {
            free_columns(version, side(version) - 2 * p, side(version))
        } else {
            free_columns(version, 7, side(version)) + free_columns(
                version,
                side(version) - 1 - 2 * p,
                6,
            )
        }),
    decreases p,
{
    let s = side(version);
    if p > 0 {
        let before = p - 1;
        lemma_free_before_pair_by_columns(version, level, mask, before);
        lemma_free_in_pair_by_rows(version, level, mask, before, s);
        if before < (s - 7) / 2 {
            lemma_free_columns_at_the_low_end(version, s - 2 * p, s);
        } else {
            lemma_free_columns_at_the_low_end(version, s - 1 - 2 * p, 6);
        }
    }
}

/// Data placement finds as many free modules in a symbol with its function
/// patterns as `data_modules` says.
pub proof fn lemma_free_modules_on_the_way(version: int, level: EcLevel, mask: MaskPattern)
    requires
        1 <= version <= 40,
    ensures
        free_before_pair(
            function_grid(version, level, mask),
            side(version),
            ((side(version) - 1) / 2) as nat,
        ) == data_modules(version),
        data_modules(version) == raw_modules(version),
{
    let s = side(version);
    lemma_free_before_pair_by_columns(version, level, mask, (s - 1) / 2);
    lemma_free_modules(version);
    lemma_free_columns_split(version, 0, 6, s);
    lemma_free_columns_split(version, 6, 7, s);
    reveal_with_fuel(free_columns, 2);
    if version >= 2 {
        lemma_alignment_coordinates(version);
    }
}

proof fn lemma_find_turn(cells: Seq<Bit>, s: int, p: int, turns: nat, rank: nat) -> (turn: int)
    requires
        rank < free_in_pair(cells, s, p, turns),
    ensures
        0 <= turn < turns,
        !module_at(cells, s, pair_cell(s, p, turn).0, pair_cell(s, p, turn).1).reserved(),
        free_in_pair(cells, s, p, turn as nat) == rank,
    decreases turns,
{
    if rank < free_in_pair(cells, s, p, (turns - 1) as nat) {
        lemma_find_turn(cells, s, p, (turns - 1) as nat, rank)
    } else {
        turns - 1
    }
}

proof fn lemma_find_pair(cells: Seq<Bit>, s: int, pairs: nat, rank: nat) -> (found: (int, int))
    requires
        0 < s,
        rank < free_before_pair(cells, s, pairs),
    ensures
        0 <= found.0 < pairs,
        0 <= found.1 < 2 * s,
        !module_at(
            cells,
            s,
            pair_cell(s, found.0, found.1).0,
            pair_cell(s, found.0, found.1).1,
        ).reserved(),
        free_before_pair(cells, s, found.0 as nat) + free_in_pair(
            cells,
            s,
            found.0,
            found.1 as nat,
        ) == rank,
    decreases pairs,
{
    if rank < free_before_pair(cells, s, (pairs - 1) as nat) {
        lemma_find_pair(cells, s, (pairs - 1) as nat, rank)
    } else {
        let within = (rank - free_before_pair(cells, s, (pairs - 1) as nat)) as nat;
        let turn = lemma_find_turn(cells, s, pairs - 1, (2 * s) as nat, within);
        (pairs - 1, turn)
    }
}

/// The free module of a given rank: for every rank below the number of
/// free modules of a symbol there is a module of no function pattern,
/// outside column 6, that has the rank.
pub proof fn lemma_module_of_rank(version: int, level: EcLevel, mask: MaskPattern, rank: int) -> (found:
    (int, int))
    requires
        1 <= version <= 40,
        0 <= rank < data_modules(version),
    ensures
        in_grid(side(version), found.0, found.1),
        found.0 != 6,
        !module_at(function_grid(version, level, mask), side(version), found.0, found.1).reserved(),
        placement_rank(function_grid(version, level, mask), side(version), found.0, found.1)
            == rank,
{
    let s = side(version);
    let grid = function_grid(version, level, mask);
    lemma_free_modules_on_the_way(version, level, mask);
    let (p, t) = lemma_find_pair(grid, s, ((s - 1) / 2) as nat, rank as nat);
    crate::layout::lemma_placement_order(version, 0, 0, p, t);
    pair_cell(s, p, t)
}

/// Whether, once a bit stream is placed on a grid, a module holds bit `r`
/// of the stream: the free module of the rank `r`.
pub open spec fn bit_is_placed(cells: Seq<Bit>, s: int, bits: Seq<Bit>, r: int) -> bool {
    exists|x: int, y: int|
        in_grid(s, x, y) && x != 6 && !module_at(cells, s, x, y).reserved() && #[trigger] placement_rank(
            cells,
            s,
            x,
            y,
        ) == r && module_at(with_data(cells, s, bits), s, x, y) == bits[r]
}

/// The bit stream of a symbol fills the symbol: it has eight bits for each
/// codeword of the symbol, the function patterns leave a free module for
/// every bit of it, and fewer than eight free modules are left over. Once
/// the stream is placed, every bit of it sits in a module of its own.
pub proof fn lemma_stream_fills_the_symbol(
    encoding: Encoding,
    level: EcLevel,
    mask: MaskPattern,
    version: int,
    text: Seq<char>,
)
    requires
        encoding != Encoding::Kanji,
        encoding.accepts_all(text),
        1 <= version <= 40,
        fits(encoding, level, version, text.len() as int),
    ensures
        symbol_stream(encoding, level, version, text).len() == 8 * codewords_in_symbol(
            version,
            level.index(),
        ),
        symbol_stream(encoding, level, version, text).len() <= data_modules(version)
            < symbol_stream(encoding, level, version, text).len() + 8,
        forall|r: int|
            0 <= r < symbol_stream(encoding, level, version, text).len() ==> #[trigger] bit_is_placed(
                function_grid(version, level, mask),
                side(version),
                symbol_stream(encoding, level, version, text),
                r,
            ),
{
    let s = side(version);
    let stream = symbol_stream(encoding, level, version, text);
    let grid = function_grid(version, level, mask);
    let bits = framed(encoding, level, version, text);
    let bytes = bytes_of_modules(bits);
    let ec_size = ec_codewords_per_block(version, level.index());
    lemma_framed_fills_data_codewords(encoding, level, version, text);
    lemma_block_structure(version, level.index());
    lemma_stream_lengths(bytes, version, level, ec_size);
    lemma_codewords_fill_modules(version, level.index());
    lemma_free_modules_on_the_way(version, level, mask);
    lemma_function_modules_are_reserved(version, level.index(), mask, 0, 0);
    let pairs = ((s - 1) / 2) as nat;
    assert forall|r: int| 0 <= r < stream.len() implies #[trigger] bit_is_placed(
        grid,
        s,
        stream,
        r,
    ) by {
        let (p, t) = lemma_find_pair(grid, s, pairs, r as nat);
        let (x, y) = pair_cell(s, p, t);
        crate::layout::lemma_placement_order(version, 0, 0, p, t);
        lemma_placed_module(version, grid, stream, x, y);
    }
}

/// The free modules that the bit stream does not reach stay light: a
/// module of no function pattern whose rank is not below the length of the
/// stream is light and not reserved once the stream is placed.
pub proof fn lemma_leftover_modules_stay_light(
    version: int,
    level: EcLevel,
    mask: MaskPattern,
    stream: Seq<Bit>,
    x: int,
    y: int,
)
    requires
        1 <= version <= 40,
        in_grid(side(version), x, y),
        !is_function_module(version, x, y),
        placement_rank(function_grid(version, level, mask), side(version), x, y) >= stream.len(),
    ensures
        module_at(
            with_data(function_grid(version, level, mask), side(version), stream),
            side(version),
            x,
            y,
        ) == Bit::Zero(false),
{
    let s = side(version);
    let grid = function_grid(version, level, mask);
    lemma_function_modules_are_reserved(version, level.index(), mask, x, y);
    lemma_placed_module(version, grid, stream, x, y);
    assert(blank(s).len() == s * s) by (nonlinear_arith)
        requires
            s >= 0,
            blank(s).len() == (s * s) as nat,
    ;
    crate::reserved::lemma_function_patterns_reserve(blank(s), version, level.index(), mask);
    assert(crate::reserved::kept_or_reserved(blank(s), grid, s, x, y));
    crate::layout::lemma_place_in_storage(s, x, y);
}

} // verus!
