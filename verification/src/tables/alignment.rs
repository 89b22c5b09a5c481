//! Where the alignment patterns of a symbol are centred.
use vstd::prelude::*;

verus! {

/// Centre coordinates of the alignment patterns, for versions 2 to 40: row
/// `version - 2`. The coordinates of a version are the first
/// `ALIGNMENT_COUNTS[version - 2]` entries of its row; the rest is filler.
pub const ALIGNMENT_POSITIONS: [[u8; 7]; 39] = [
    [6, 18, 0, 0, 0, 0, 0],
    [6, 22, 0, 0, 0, 0, 0],
    [6, 26, 0, 0, 0, 0, 0],
    [6, 30, 0, 0, 0, 0, 0],
    [6, 34, 0, 0, 0, 0, 0],
    [6, 22, 38, 0, 0, 0, 0],
    [6, 24, 42, 0, 0, 0, 0],
    [6, 26, 46, 0, 0, 0, 0],
    [6, 28, 50, 0, 0, 0, 0],
    [6, 30, 54, 0, 0, 0, 0],
    [6, 32, 58, 0, 0, 0, 0],
    [6, 34, 62, 0, 0, 0, 0],
    [6, 26, 46, 66, 0, 0, 0],
    [6, 26, 48, 70, 0, 0, 0],
    [6, 26, 50, 74, 0, 0, 0],
    [6, 30, 54, 78, 0, 0, 0],
    [6, 30, 56, 82, 0, 0, 0],
    [6, 30, 58, 86, 0, 0, 0],
    [6, 34, 62, 90, 0, 0, 0],
    [6, 28, 50, 72, 94, 0, 0],
    [6, 26, 50, 74, 98, 0, 0],
    [6, 30, 54, 78, 102, 0, 0],
    [6, 28, 54, 80, 106, 0, 0],
    [6, 32, 58, 84, 110, 0, 0],
    [6, 30, 58, 86, 114, 0, 0],
    [6, 34, 62, 90, 118, 0, 0],
    [6, 26, 50, 74, 98, 122, 0],
    [6, 30, 54, 78, 102, 126, 0],
    [6, 26, 52, 78, 104, 130, 0],
    [6, 30, 56, 82, 108, 134, 0],
    [6, 34, 60, 86, 112, 138, 0],
    [6, 30, 58, 86, 114, 142, 0],
    [6, 34, 62, 90, 118, 146, 0],
    [6, 30, 54, 78, 102, 126, 150],
    [6, 24, 50, 76, 102, 128, 154],
    [6, 28, 54, 80, 106, 132, 158],
    [6, 32, 58, 84, 110, 136, 162],
    [6, 26, 54, 82, 110, 138, 166],
    [6, 30, 58, 86, 114, 142, 170],
];

/// How many alignment coordinates each of the versions 2 to 40 has.
pub const ALIGNMENT_COUNTS: [u8; 39] = [
    2, 2, 2, 2, 2, 3, 3, 3, 3, 3, 3, 3, 4,
    4, 4, 4, 4, 4, 4, 5, 5, 5, 5, 5, 5, 5,
    6, 6, 6, 6, 6, 6, 6, 7, 7, 7, 7, 7, 7,
];

/// The centre coordinates of the alignment patterns of a version, in
/// increasing order. Version 1 has none.
pub closed spec fn alignment_coordinates(version: int) -> Seq<int> {
    if 2 <= version <= 40 {
        Seq::new(
            ALIGNMENT_COUNTS[version - 2] as nat,
            |i: int| ALIGNMENT_POSITIONS[version - 2][i] as int,
        )
    } else {
        Seq::empty()
    }
}

/// `alignment_coordinates` holds the entries of the tables.
pub proof fn lemma_table_entries(version: int)
    requires
        2 <= version <= 40,
    ensures
        alignment_coordinates(version).len() == ALIGNMENT_COUNTS[version - 2],
        forall|i: int|
            0 <= i < ALIGNMENT_COUNTS[version - 2] ==> #[trigger] alignment_coordinates(version)[i]
                == ALIGNMENT_POSITIONS[version - 2][i],
{
}

/// What the tables say of the coordinates of a version: there are between
/// two and seven of them; the first is 6 and the last lies 6 modules from
/// the far edge of the symbol; and neighbours are at least 12 modules
/// apart.
pub proof fn lemma_alignment_coordinates(version: int)
    requires
        2 <= version <= 40,
    ensures
        2 <= alignment_coordinates(version).len() <= 7,
        alignment_coordinates(version).len() == version / 7 + 2,
        alignment_coordinates(version)[0] == 6,
        alignment_coordinates(version).last() == 10 + 4 * version,
        forall|i: int|
            0 <= i < alignment_coordinates(version).len() - 1 ==> (
            #[trigger] alignment_coordinates(version)[i]) + 12 <= alignment_coordinates(version)[i
                + 1],
{
    let coords = alignment_coordinates(version);
    let row = ALIGNMENT_POSITIONS[version - 2];
    assert(coords.len() == version / 7 + 2);
    assert(row[0] == 6);
    assert(row[coords.len() - 1] == 10 + 4 * version);
    assert forall|i: int| 0 <= i < coords.len() - 1 implies (#[trigger] coords[i]) + 12
        <= coords[i + 1] by {
        assert(row[i] + 12 <= row[i + 1]);
    }
}

/// Two different alignment coordinates of a version are at least 12
/// modules apart, and the coordinates lie between 6 and the far edge less 7.
pub proof fn lemma_alignment_spacing(version: int, i: int, j: int)
    requires
        2 <= version <= 40,
        0 <= i < j < alignment_coordinates(version).len(),
    ensures
        6 <= alignment_coordinates(version)[i],
        alignment_coordinates(version)[i] + 12 <= alignment_coordinates(version)[j],
        alignment_coordinates(version)[j] <= 10 + 4 * version,
{
    let row = ALIGNMENT_POSITIONS[version - 2];
    assert(6 <= row[i] && row[i] + 12 <= row[j] && row[j] <= 10 + 4 * version);
}

/// Version 1 has no alignment pattern.
pub proof fn lemma_no_alignment_in_version_1()
    ensures
        alignment_coordinates(1).len() == 0,
{
}

/// Reads the alignment coordinates of a version from the table.
pub fn alignment_positions(version: u8) -> (coords: Vec<u8>)
    requires
        1 <= version <= 40,
    ensures
        coords@.len() == alignment_coordinates(version as int).len(),
        forall|i: int|
            0 <= i < coords@.len() ==> #[trigger] coords@[i] == alignment_coordinates(
                version as int,
            )[i],
{
    let mut coords: Vec<u8> = Vec::new();
    if version >= 2 {
        let row = (version - 2) as usize;
        let count = ALIGNMENT_COUNTS[row] as usize;
        assert(count <= 7);
        let mut i: usize = 0;
        while i < count
            invariant
                2 <= version <= 40,
                row == version - 2,
                count == ALIGNMENT_COUNTS[row as int],
                count <= 7,
                i <= count,
                coords@.len() == i,
                forall|k: int|
                    0 <= k < i ==> #[trigger] coords@[k] == alignment_coordinates(version as int)[k],
            decreases count - i,
        {
            coords.push(ALIGNMENT_POSITIONS[row][i]);
            i = i + 1;
        }
    }
    coords
}

} // verus!
