//! The order in which the modules of a symbol take up the bit stream: no
//! two modules take the same bit, and a module visited later takes a later
//! bit.
use crate::bit::Bit;
use crate::layout::{
    data_paint, free_before_pair, free_in_pair, in_grid, lemma_painted_module,
    lemma_placement_order, module_at, pair_cell, pair_of_column, placement_rank, side,
    turn_in_pair, with_data,
};
use vstd::prelude::*;

verus! {

/// Whether data placement visits the module at `(x1, y1)` before the module
/// at `(x2, y2)`: in an earlier pair of columns, or in the same pair at an
/// earlier turn.
pub open spec fn visited_before(s: int, x1: int, y1: int, x2: int, y2: int) -> bool {
    pair_of_column(s, x1) < pair_of_column(s, x2) || (pair_of_column(s, x1) == pair_of_column(
        s,
        x2,
    ) && turn_in_pair(s, x1, y1) < turn_in_pair(s, x2, y2))
}

/// The number of free modules among those visited in a pair of columns
/// does not fall as the visit goes on, and rises when a free module is
/// passed.
pub proof fn lemma_free_in_pair_grows(cells: Seq<Bit>, s: int, p: int, earlier: nat, later: nat)
    requires
        earlier <= later,
    ensures
        free_in_pair(cells, s, p, earlier) <= free_in_pair(cells, s, p, later),
        earlier < later && !module_at(
            cells,
            s,
            pair_cell(s, p, earlier as int).0,
            pair_cell(s, p, earlier as int).1,
        ).reserved() ==> free_in_pair(cells, s, p, earlier) < free_in_pair(cells, s, p, later),
    decreases later - earlier,
{
    if earlier < later {
        lemma_free_in_pair_grows(cells, s, p, (earlier + 1) as nat, later);
    }
}

/// The number of free modules in the pairs of columns visited does not
/// fall as the visit goes on.
pub proof fn lemma_free_before_pair_grows(cells: Seq<Bit>, s: int, earlier: nat, later: nat)
    requires
        earlier <= later,
    ensures
        free_before_pair(cells, s, earlier) <= free_before_pair(cells, s, later),
    decreases later - earlier,
{
    if earlier < later {
        lemma_free_before_pair_grows(cells, s, earlier, (later - 1) as nat);
    }
}

/// Of two modules outside column 6, the one visited later has the higher
/// rank if the one visited earlier is free. So the free modules take up the
/// bits of the stream in the order of the visit, each a bit of its own.
pub proof fn lemma_rank_follows_visit(
    version: int,
    cells: Seq<Bit>,
    x1: int,
    y1: int,
    x2: int,
    y2: int,
)
    requires
        1 <= version <= 40,
        in_grid(side(version), x1, y1),
        in_grid(side(version), x2, y2),
        x1 != 6,
        x2 != 6,
        !module_at(cells, side(version), x1, y1).reserved(),
        visited_before(side(version), x1, y1, x2, y2),
    ensures
        placement_rank(cells, side(version), x1, y1) < placement_rank(
            cells,
            side(version),
            x2,
            y2,
        ),
{
    let s = side(version);
    let first_pair = pair_of_column(s, x1);
    let second_pair = pair_of_column(s, x2);
    let first_turn = turn_in_pair(s, x1, y1);
    let second_turn = turn_in_pair(s, x2, y2);
    lemma_placement_order(version, x1, y1, 0, 0);
    lemma_placement_order(version, x2, y2, 0, 0);
    if first_pair == second_pair {
        lemma_free_in_pair_grows(cells, s, first_pair, first_turn as nat, second_turn as nat);
    } else {
        lemma_free_in_pair_grows(cells, s, first_pair, first_turn as nat, (2 * s) as nat);
        lemma_free_before_pair_grows(cells, s, (first_pair + 1) as nat, second_pair as nat);
    }
}

/// Two different free modules never take the same bit of the stream.
pub proof fn lemma_rank_is_unique(version: int, cells: Seq<Bit>, x1: int, y1: int, x2: int, y2: int)
    requires
        1 <= version <= 40,
        in_grid(side(version), x1, y1),
        in_grid(side(version), x2, y2),
        x1 != 6,
        x2 != 6,
        !module_at(cells, side(version), x1, y1).reserved(),
        !module_at(cells, side(version), x2, y2).reserved(),
        placement_rank(cells, side(version), x1, y1) == placement_rank(
            cells,
            side(version),
            x2,
            y2,
        ),
    ensures
        x1 == x2,
        y1 == y2,
{
    let s = side(version);
    lemma_placement_order(version, x1, y1, 0, 0);
    lemma_placement_order(version, x2, y2, 0, 0);
    if visited_before(s, x1, y1, x2, y2) {
        lemma_rank_follows_visit(version, cells, x1, y1, x2, y2);
    } else if visited_before(s, x2, y2, x1, y1) {
        lemma_rank_follows_visit(version, cells, x2, y2, x1, y1);
    }
}

/// After data placement, a free module outside column 6 whose rank lies
/// within the stream holds the bit of that rank, and every other module is
/// as it was.
pub proof fn lemma_placed_module(version: int, cells: Seq<Bit>, bits: Seq<Bit>, x: int, y: int)
    requires
        1 <= version <= 40,
        cells.len() == side(version) * side(version),
        in_grid(side(version), x, y),
    ensures
        module_at(with_data(cells, side(version), bits), side(version), x, y) == (if x != 6
            && !module_at(cells, side(version), x, y).reserved() && placement_rank(
            cells,
            side(version),
            x,
            y,
        ) < bits.len() {
            bits[placement_rank(cells, side(version), x, y) as int]
        } else {
            module_at(cells, side(version), x, y)
        }),
{
    lemma_painted_module(cells, side(version), data_paint(cells, side(version), bits), x, y);
}

} // verus!
