//! The matrix of a symbol and the steps that build it.
use crate::bit::Bit;
use crate::ec::EcLevel;
use crate::encoding::Encoding;
use crate::error::{push_char, QrError};
use crate::layout::{
    blank, coordinate_pairs, data_paint, format_bit_index, format_modules, format_paint,
    free_before_pair, free_in_pair, in_grid, lemma_painted, lemma_place_in_storage,
    lemma_place_is_unique, mask_paint, module_at, pair_of_column, placement_rank,
    rendered, rendered_line, rendered_lines, side, stamp_paint, stamped, timing_paint,
    turn_in_pair, version_bit_index, version_modules, version_paint, with_alignment,
    with_alignment_pattern, with_alignment_patterns, with_dark_module, with_data, with_finders,
    with_format, with_function_patterns, with_mask, with_separators, with_timing, with_version,
    Pattern,
};
use crate::mask::MaskPattern;
use crate::tables::alignment::{
    alignment_coordinates, alignment_positions, lemma_alignment_coordinates,
};
use crate::tables::info::{format_bits, version_bits};
use vstd::prelude::*;

verus! {

/// How far the construction of a symbol has come. Each step is taken once,
/// in this order.
#[derive(Clone, Copy, Debug, PartialEq, Eq, Structural)]
pub enum BuilderStage {
    /// Nothing but function patterns drawn one by one, if any.
    Empty,
    /// All function patterns are in place.
    FunctionsDrawn,
    /// The codewords have been placed.
    DataPlaced,
    /// The mask has been applied: the symbol is complete.
    Masked,
}

/// A symbol under construction: a square grid of modules, stored row by
/// row from the top, together with the parameters it is built for.
pub struct QrCode {
    data: Vec<Bit>,
    version: u8,
    ec_level: EcLevel,
    mask_pattern: MaskPattern,
    encoding: Encoding,
    stage: BuilderStage,
}

impl View for QrCode {
    type V = Seq<Bit>;

    closed spec fn view(&self) -> Seq<Bit> {
        self.data@
    }
}

impl QrCode {
    #[verifier::type_invariant]
    spec fn well_formed(&self) -> bool {
        &&& 1 <= self.version <= 40
        &&& self.data@.len() == side(self.version as int) * side(self.version as int)
    }

    /// The version the symbol is built for.
    pub closed spec fn spec_version(&self) -> u8 {
        self.version
    }

    /// The error-correction level the symbol is built for.
    pub closed spec fn spec_ec_level(&self) -> EcLevel {
        self.ec_level
    }

    /// The mask pattern the symbol is built for.
    pub closed spec fn spec_mask_pattern(&self) -> MaskPattern {
        self.mask_pattern
    }

    /// The encoding mode the symbol is built for.
    pub closed spec fn spec_encoding(&self) -> Encoding {
        self.encoding
    }

    /// How far the construction has come.
    pub closed spec fn spec_stage(&self) -> BuilderStage {
        self.stage
    }

    /// The side length of the symbol.
    pub open spec fn spec_size(&self) -> int {
        side(self.spec_version() as int)
    }

    /// Whether two symbols are built for the same parameters and have come
    /// equally far.
    pub open spec fn same_frame(&self, other: &QrCode) -> bool {
        &&& self.spec_version() == other.spec_version()
        &&& self.spec_ec_level() == other.spec_ec_level()
        &&& self.spec_mask_pattern() == other.spec_mask_pattern()
        &&& self.spec_encoding() == other.spec_encoding()
        &&& self.spec_stage() == other.spec_stage()
    }

    /// The place of a module in the storage of a grid of side `size`, if
    /// the grid has the module.
    pub open spec fn place(x: u32, y: u32, size: u32) -> Option<u32> {
        if x < size && y < size {
            Some((x + size * y) as u32)
        } else {
            None
        }
    }

    #[verifier::when_used_as_spec(spec_version)]
    pub fn version(&self) -> (version: u8)
        ensures
            version == self.spec_version(),
            1 <= version <= 40,
    {
        proof {
            use_type_invariant(self);
        }
        self.version
    }

    #[verifier::when_used_as_spec(spec_ec_level)]
    pub fn ec_level(&self) -> (level: EcLevel)
        ensures
            level == self.spec_ec_level(),
    {
        self.ec_level
    }

    #[verifier::when_used_as_spec(spec_mask_pattern)]
    pub fn mask_pattern(&self) -> (pattern: MaskPattern)
        ensures
            pattern == self.spec_mask_pattern(),
    {
        self.mask_pattern
    }

    #[verifier::when_used_as_spec(spec_encoding)]
    pub fn encoding(&self) -> (encoding: Encoding)
        ensures
            encoding == self.spec_encoding(),
    {
        self.encoding
    }

    #[verifier::when_used_as_spec(spec_stage)]
    pub fn stage(&self) -> (stage: BuilderStage)
        ensures
            stage == self.spec_stage(),
    {
        self.stage
    }

    /// The modules of the symbol, row by row from the top.
    pub fn data(&self) -> (modules: &Vec<Bit>)
        ensures
            modules@ == self@,
            modules@.len() == self.spec_size() * self.spec_size(),
    {
        proof {
            use_type_invariant(self);
        }
        &self.data
    }

    pub fn size_from_version(version: u8) -> (size: u32)
        ensures
            size == side(version as int),
    {
        17 + 4 * version as u32
    }

    pub fn size(&self) -> (size: u32)
        ensures
            size == self.spec_size(),
            21 <= size <= 177,
            self@.len() == size * size,
    {
        proof {
            use_type_invariant(self);
        }
        Self::size_from_version(self.version)
    }

    pub fn coords_to_index(x: u32, y: u32, size: u32) -> (index: Option<u32>)
        requires
            size <= 0xffff,
        ensures
            index == Self::place(x, y, size),
            index matches Some(i) ==> i == x + size * y && i < size * size,
    {
        if !(x < size && y < size) {
            None
        } else {
            proof {
                lemma_place_in_storage(size as int, x as int, y as int);
                assert(size * size <= 0xffff * 0xffff) by (nonlinear_arith)
                    requires
                        size <= 0xffff,
                ;
            }
            Some(x + size * y)
        }
    }

    pub fn coords_to_index_from_version(x: u32, y: u32, version: u8) -> (index: Option<u32>)
        ensures
            index == Self::place(x, y, side(version as int) as u32),
    {
        Self::coords_to_index(x, y, Self::size_from_version(version))
    }

    pub fn coords_to_index_from_instance(&self, x: u32, y: u32) -> (index: Option<u32>)
        ensures
            index == Self::place(x, y, self.spec_size() as u32),
            index matches Some(i) ==> i == x + self.spec_size() * y && i < self@.len(),
    {
        Self::coords_to_index(x, y, self.size())
    }

    /// The module in column `x` of row `y`, if the symbol has it.
    pub fn get(&self, x: u32, y: u32) -> (module: Option<Bit>)
        ensures
            module == (if in_grid(self.spec_size(), x as int, y as int) {
                Some(module_at(self@, self.spec_size(), x as int, y as int))
            } else {
                None
            }),
    {
        if let Some(index) = self.coords_to_index_from_instance(x, y) {
            Some(self.data[index as usize])
        } else {
            None
        }
    }

    /// Writes the module in column `x` of row `y`. A place outside the
    /// symbol is left alone.
    fn put(&mut self, x: u32, y: u32, data: Bit)
        ensures
            final(self).same_frame(old(self)),
            final(self)@.len() == old(self)@.len(),
            forall|a: int, b: int|
                in_grid(old(self).spec_size(), a, b) ==> #[trigger] module_at(
                    final(self)@,
                    old(self).spec_size(),
                    a,
                    b,
                ) == (if a == x && b == y {
                    data
                } else {
                    module_at(old(self)@, old(self).spec_size(), a, b)
                }),
    {
        let ghost s = self.spec_size();
        let ghost before = self@;
        proof {
            use_type_invariant(&*self);
        }
        if let Some(index) = self.coords_to_index_from_instance(x, y) {
            self.data[index as usize] = data;
            proof {
                assert forall|a: int, b: int| in_grid(s, a, b) implies #[trigger] module_at(
                    self@,
                    s,
                    a,
                    b,
                ) == (if a == x && b == y {
                    data
                } else {
                    module_at(before, s, a, b)
                }) by {
                    lemma_place_in_storage(s, a, b);
                    if a + s * b == x + s * y {
                        lemma_place_is_unique(s, a, b, x as int, y as int);
                    }
                }
            }
        }
    }

    /// A symbol of the given version with every module light and
    /// unreserved.
    pub fn new(version: u8, ec_level: EcLevel, mask_pattern: MaskPattern, encoding: Encoding) -> (result:
        Result<QrCode, QrError>)
        ensures
            match result {
                Ok(code) => {
                    &&& 1 <= version <= 40
                    &&& code.spec_version() == version
                    &&& code.spec_ec_level() == ec_level
                    &&& code.spec_mask_pattern() == mask_pattern
                    &&& code.spec_encoding() == encoding
                    &&& code.spec_stage() == BuilderStage::Empty
                    &&& code@ == blank(side(version as int))
                },
                Err(e) => e == QrError::InvalidVersion && !(1 <= version <= 40),
            },
    {
        if version > 40 || version == 0 {
            Err(QrError::InvalidVersion)
        } else {
            let size = Self::size_from_version(version) as usize;
            assert(size * size <= 177 * 177) by (nonlinear_arith)
                requires
                    size <= 177,
            ;
            let total = size * size;
            let mut data: Vec<Bit> = Vec::new();
            let mut i: usize = 0;
            while i < total
                invariant
                    i <= total,
                    data@.len() == i,
                    forall|k: int| 0 <= k < i ==> data@[k] == Bit::Zero(false),
                decreases total - i,
            {
                data.push(Bit::Zero(false));
                i = i + 1;
            }
            proof {
                assert(data@ =~= blank(side(version as int)));
            }
            Ok(QrCode { data, version, ec_level, mask_pattern, encoding, stage: BuilderStage::Empty })
        }
    }

    /// Stamps a shape over the block of `w` columns and `h` rows whose top
    /// left corner is at `(x0, y0)`.
    fn stamp(&mut self, kind: Pattern, x0: u32, y0: u32, w: u32, h: u32)
        requires
            x0 <= 0xffff,
            y0 <= 0xffff,
            w <= 0xffff,
            h <= 0xffff,
        ensures
            final(self).same_frame(old(self)),
            final(self)@ == stamped(
                old(self)@,
                old(self).spec_size(),
                kind,
                x0 as int,
                y0 as int,
                w as int,
                h as int,
            ),
    {
        let ghost s = self.spec_size();
        let ghost before = self@;
        proof {
            use_type_invariant(&*self);
        }
        let mut dx: u32 = 0;
        while dx < w
            invariant
                dx <= w <= 0xffff,
                x0 <= 0xffff,
                y0 <= 0xffff,
                h <= 0xffff,
                self.same_frame(old(self)),
                s == self.spec_size(),
                self@.len() == before.len(),
                forall|a: int, b: int|
                    in_grid(s, a, b) ==> #[trigger] module_at(self@, s, a, b) == (if x0 <= a < x0
                        + dx && y0 <= b < y0 + h {
                        Bit::of(kind.dark_at(a - x0, b - y0), true)
                    } else {
                        module_at(before, s, a, b)
                    }),
            decreases w - dx,
        {
            let mut dy: u32 = 0;
            while dy < h
                invariant
                    dx < w <= 0xffff,
                    dy <= h <= 0xffff,
                    x0 <= 0xffff,
                    y0 <= 0xffff,
                    self.same_frame(old(self)),
                    s == self.spec_size(),
                    self@.len() == before.len(),
                    forall|a: int, b: int|
                        in_grid(s, a, b) ==> #[trigger] module_at(self@, s, a, b) == (if (x0 <= a
                            < x0 + dx && y0 <= b < y0 + h) || (a == x0 + dx && y0 <= b < y0 + dy) {
                            Bit::of(kind.dark_at(a - x0, b - y0), true)
                        } else {
                            module_at(before, s, a, b)
                        }),
                decreases h - dy,
            {
                self.put(x0 + dx, y0 + dy, kind.module(dx, dy));
                dy = dy + 1;
            }
            dx = dx + 1;
        }
        proof {
            lemma_painted(before, self@, s, stamp_paint(kind, x0 as int, y0 as int, w as int, h as int));
        }
    }

    /// Draws the three finder patterns.
    pub fn finder_patterns(&mut self)
        requires
            old(self).spec_stage() == BuilderStage::Empty,
        ensures
            final(self).same_frame(old(self)),
            final(self)@ == with_finders(old(self)@, old(self).spec_size()),
    {
        let size = self.size();
        self.stamp(Pattern::Finder, 0, 0, 7, 7);
        self.stamp(Pattern::Finder, size - 7, 0, 7, 7);
        self.stamp(Pattern::Finder, 0, size - 7, 7, 7);
    }

    /// Draws the separators around the finder patterns.
    pub fn separators_patterns(&mut self)
        requires
            old(self).spec_stage() == BuilderStage::Empty,
        ensures
            final(self).same_frame(old(self)),
            final(self)@ == with_separators(old(self)@, old(self).spec_size()),
    {
        let size = self.size();
        self.stamp(Pattern::Light, 7, 0, 1, 8);
        self.stamp(Pattern::Light, size - 8, 0, 1, 8);
        self.stamp(Pattern::Light, 7, size - 8, 1, 8);
        self.stamp(Pattern::Light, 0, 7, 7, 1);
        self.stamp(Pattern::Light, size - 7, 7, 7, 1);
        self.stamp(Pattern::Light, 0, size - 8, 7, 1);
    }

    /// All pairs of the given coordinates, the first component moving
    /// slowest.
    pub fn combination(array: &[u8]) -> (pairs: Vec<(u8, u8)>)
        ensures
            pairs@.len() == array@.len() * array@.len(),
            forall|i: int, j: int|
                0 <= i < array@.len() && 0 <= j < array@.len() ==> pairs@[i * array@.len() + j] == (
                    #[trigger] array@[i],
                    #[trigger] array@[j],
                ),
    {
        let n = array.len();
        let mut res: Vec<(u8, u8)> = Vec::new();
        let mut i: usize = 0;
        assert(0 * n == 0) by (nonlinear_arith);
        while i < n
            invariant
                i <= n,
                n == array@.len(),
                res@.len() == i * n,
                forall|a: int, b: int|
                    0 <= a < i && 0 <= b < n ==> res@[a * n + b] == (
                        #[trigger] array@[a],
                        #[trigger] array@[b],
                    ),
            decreases n - i,
        {
            let mut j: usize = 0;
            let ghost row_start = res@;
            while j < n
                invariant
                    i < n,
                    j <= n,
                    n == array@.len(),
                    row_start.len() == i * n,
                    res@.len() == i * n + j,
                    forall|k: int| 0 <= k < row_start.len() ==> res@[k] == row_start[k],
                    forall|b: int|
                        0 <= b < j ==> res@[i * n + b] == (array@[i as int], #[trigger] array@[b]),
                decreases n - j,
            {
                res.push((array[i], array[j]));
                j = j + 1;
            }
            proof {
                assert((i + 1) * n == i * n + n) by (nonlinear_arith);
                assert forall|a: int, b: int| 0 <= a < i + 1 && 0 <= b < n implies res@[a * n + b] == (
                    #[trigger] array@[a],
                    #[trigger] array@[b],
                ) by {
                    if a < i {
                        assert(0 <= a * n + b < i * n) by (nonlinear_arith)
                            requires
                                0 <= a < i,
                                0 <= b < n,
                        ;
                    }
                }
            }
            i = i + 1;
        }
        res
    }

    /// Draws the alignment pattern centred at `(x, y)`, unless the module
    /// there is reserved already.
    pub fn draw_alignment_pattern(&mut self, x: u32, y: u32)
        requires
            old(self).spec_stage() == BuilderStage::Empty,
            2 <= x < old(self).spec_size(),
            2 <= y < old(self).spec_size(),
        ensures
            final(self).same_frame(old(self)),
            final(self)@ == with_alignment_pattern(
                old(self)@,
                old(self).spec_size(),
                x as int,
                y as int,
            ),
    {
        let cx = x - 2;
        let cy = y - 2;
        if let Some(centre) = self.get(x, y) {
            if !centre.is_functional() {
                self.stamp(Pattern::Alignment, cx, cy, 5, 5);
            }
        }
    }

    /// Draws the alignment patterns of the version.
    pub fn alignment_patterns(&mut self)
        requires
            old(self).spec_stage() == BuilderStage::Empty,
        ensures
            final(self).same_frame(old(self)),
            final(self)@ == with_alignment(
                old(self)@,
                old(self).spec_size(),
                old(self).spec_version() as int,
            ),
    {
        let ghost s = self.spec_size();
        let ghost before = self@;
        let version = self.version();
        let ghost coords = alignment_coordinates(version as int);
        let positions = alignment_positions(version);
        let count = positions.len();
        proof {
            if version >= 2 {
                lemma_alignment_coordinates(version as int);
            } else {
                crate::tables::alignment::lemma_no_alignment_in_version_1();
            }
            assert(count * count <= 49) by (nonlinear_arith)
                requires
                    count <= 7,
            ;
        }
        let ghost centres = coordinate_pairs(coords);
        let combinations = Self::combination(positions.as_slice());
        proof {
            assert(centres.take(0) =~= Seq::<(int, int)>::empty());
        }
        let mut k: usize = 0;
        while k < combinations.len()
            invariant
                k <= combinations@.len(),
                combinations@.len() == count * count,
                count == positions@.len(),
                count == coords.len(),
                count <= 7,
                version == self.spec_version(),
                version >= 2 ==> 2 <= coords.len(),
                forall|i: int| 0 <= i < count ==> #[trigger] positions@[i] == coords[i],
                forall|i: int| 0 <= i < count ==> 6 <= #[trigger] coords[i] <= s - 7,
                forall|i: int, j: int|
                    0 <= i < count && 0 <= j < count ==> combinations@[i * count + j] == (
                        #[trigger] positions@[i],
                        #[trigger] positions@[j],
                    ),
                centres == coordinate_pairs(coords),
                centres.len() == combinations@.len(),
                self.same_frame(old(self)),
                self.spec_stage() == BuilderStage::Empty,
                s == self.spec_size(),
                self@ == with_alignment_patterns(before, s, centres.take(k as int)),
            decreases combinations@.len() - k,
        {
            let (x, y) = combinations[k];
            proof {
                let n = count as int;
                let i = k as int / n;
                let j = k as int % n;
                vstd::arithmetic::div_mod::lemma_fundamental_div_mod(k as int, n);
                vstd::arithmetic::div_mod::lemma_mod_bound(k as int, n);
                assert(0 <= i < n) by (nonlinear_arith)
                    requires
                        0 <= k < n * n,
                        k == n * i + j,
                        0 <= j < n,
                        0 < n,
                ;
                assert(i * n + j == k) by (nonlinear_arith)
                    requires
                        k == n * i + j,
                ;
                assert(combinations@[i * n + j] == (positions@[i], positions@[j]));
                assert(centres.take(k + 1).drop_last() =~= centres.take(k as int));
            }
            self.draw_alignment_pattern(x as u32, y as u32);
            k = k + 1;
        }
        proof {
            assert(centres.take(k as int) =~= centres);
        }
    }

    /// Draws the two timing patterns.
    pub fn timing_patterns(&mut self)
        requires
            old(self).spec_stage() == BuilderStage::Empty,
        ensures
            final(self).same_frame(old(self)),
            final(self)@ == with_timing(old(self)@, old(self).spec_size()),
    {
        let ghost s = self.spec_size();
        let ghost before = self@;
        let size = self.size();
        let length = size - 16;
        let mut dx: u32 = 0;
        while dx < length
            invariant
                dx <= length,
                length == size - 16,
                21 <= size <= 177,
                size == s,
                s == self.spec_size(),
                self.same_frame(old(self)),
                self@.len() == before.len(),
                forall|a: int, b: int|
                    in_grid(s, a, b) ==> #[trigger] module_at(self@, s, a, b) == (if b == 6 && 8
                        <= a < 8 + dx {
                        timing_paint(s)(a, b, module_at(before, s, a, b))
                    } else {
                        module_at(before, s, a, b)
                    }),
            decreases length - dx,
        {
            let x = dx + 8;
            let here = self.get(x, 6);
            if let Some(module) = here {
                if !module.is_functional() {
                    self.put(x, 6, Bit::new(x % 2 == 0, true));
                }
            }
            dx = dx + 1;
        }
        let mut dy: u32 = 0;
        while dy < length
            invariant
                dy <= length,
                length == size - 16,
                21 <= size <= 177,
                size == s,
                s == self.spec_size(),
                self.same_frame(old(self)),
                self@.len() == before.len(),
                forall|a: int, b: int|
                    in_grid(s, a, b) ==> #[trigger] module_at(self@, s, a, b) == (if (b == 6 && 8
                        <= a < s - 8) || (a == 6 && 8 <= b < 8 + dy) {
                        timing_paint(s)(a, b, module_at(before, s, a, b))
                    } else {
                        module_at(before, s, a, b)
                    }),
            decreases length - dy,
        {
            let y = dy + 8;
            let here = self.get(6, y);
            if let Some(module) = here {
                if !module.is_functional() {
                    self.put(6, y, Bit::new(y % 2 == 0, true));
                }
            }
            dy = dy + 1;
        }
        proof {
            lemma_painted(before, self@, s, timing_paint(s));
        }
    }

    /// Draws the dark module.
    pub fn dark_module(&mut self)
        requires
            old(self).spec_stage() == BuilderStage::Empty,
        ensures
            final(self).same_frame(old(self)),
            final(self)@ == with_dark_module(
                old(self)@,
                old(self).spec_size(),
                old(self).spec_version() as int,
            ),
    {
        let version = self.version();
        self.stamp(Pattern::Dark, 8, 4 * (version as u32) + 9, 1, 1);
    }

    /// Draws both copies of the format information.
    pub fn format_information(&mut self)
        requires
            old(self).spec_stage() == BuilderStage::Empty,
        ensures
            final(self).same_frame(old(self)),
            final(self)@ == with_format(
                old(self)@,
                old(self).spec_size(),
                old(self).spec_ec_level().index(),
                old(self).spec_mask_pattern(),
            ),
    {
        let ghost s = self.spec_size();
        let ghost before = self@;
        let size = self.size();
        let word = format_bits(self.ec_level.ordinal(), self.mask_pattern.ordinal());
        let bits = Bit::from(word, 15, true, true);
        let ghost modules = format_modules(self.spec_ec_level().index(), self.spec_mask_pattern());
        let mut i: u32 = 0;
        while i < 15
            invariant
                i <= 15,
                21 <= size <= 177,
                size == s,
                s == self.spec_size(),
                bits@ == modules,
                modules.len() == 15,
                self.same_frame(old(self)),
                self@.len() == before.len(),
                forall|a: int, b: int|
                    in_grid(s, a, b) ==> #[trigger] module_at(self@, s, a, b) == (match format_bit_index(
                        s,
                        a,
                        b,
                    ) {
                        Some(j) => if j < i {
                            modules[j]
                        } else {
                            module_at(before, s, a, b)
                        },
                        None => module_at(before, s, a, b),
                    }),
            decreases 15 - i,
        {
            let bit = bits[i as usize];
            if i < 6 {
                self.put(i, 8, bit);
            } else if i < 8 {
                self.put(i + 1, 8, bit);
            } else if i == 8 {
                self.put(8, 7, bit);
            } else {
                self.put(8, 14 - i, bit);
            }
            if i < 7 {
                self.put(8, size - 1 - i, bit);
            } else {
                self.put(size - 15 + i, 8, bit);
            }
            i = i + 1;
        }
        proof {
            lemma_painted(before, self@, s, format_paint(s, modules));
        }
    }

    /// Draws both copies of the version information.
    pub fn version_information(&mut self)
        requires
            old(self).spec_stage() == BuilderStage::Empty,
            old(self).spec_version() >= 7,
        ensures
            final(self).same_frame(old(self)),
            final(self)@ == with_version(
                old(self)@,
                old(self).spec_size(),
                old(self).spec_version() as int,
            ),
    {
        let ghost s = self.spec_size();
        let ghost before = self@;
        let size = self.size();
        let version = self.version();
        let word = version_bits(version);
        let bits = Bit::from(word, 18, true, true);
        let ghost modules = version_modules(version as int);
        let mut i: u32 = 0;
        while i < 18
            invariant
                i <= 18,
                21 <= size <= 177,
                size == s,
                s == self.spec_size(),
                bits@ == modules,
                modules.len() == 18,
                self.same_frame(old(self)),
                self@.len() == before.len(),
                forall|a: int, b: int|
                    in_grid(s, a, b) ==> #[trigger] module_at(self@, s, a, b) == (match version_bit_index(
                        s,
                        a,
                        b,
                    ) {
                        Some(j) => if j < i {
                            modules[j]
                        } else {
                            module_at(before, s, a, b)
                        },
                        None => module_at(before, s, a, b),
                    }),
            decreases 18 - i,
        {
            let bit = bits[i as usize];
            self.put(i / 3, size - 11 + i % 3, bit);
            self.put(size - 11 + i % 3, i / 3, bit);
            i = i + 1;
        }
        proof {
            lemma_painted(before, self@, s, version_paint(s, modules));
        }
    }

    /// Draws every function pattern of the symbol. After this, the symbol
    /// is ready to take up data.
    pub fn all_functional_patterns(&mut self)
        requires
            old(self).spec_stage() == BuilderStage::Empty,
        ensures
            final(self).spec_version() == old(self).spec_version(),
            final(self).spec_ec_level() == old(self).spec_ec_level(),
            final(self).spec_mask_pattern() == old(self).spec_mask_pattern(),
            final(self).spec_encoding() == old(self).spec_encoding(),
            final(self).spec_stage() == BuilderStage::FunctionsDrawn,
            final(self)@ == with_function_patterns(
                old(self)@,
                old(self).spec_version() as int,
                old(self).spec_ec_level().index(),
                old(self).spec_mask_pattern(),
            ),
    {
        self.finder_patterns();
        self.separators_patterns();
        self.alignment_patterns();
        self.timing_patterns();
        self.dark_module();
        self.format_information();
        if self.version >= 7 {
            self.version_information();
        }
        proof {
            use_type_invariant(&*self);
        }
        self.stage = BuilderStage::FunctionsDrawn;
    }

    /// Places a bit stream on the symbol: the modules that are not reserved
    /// take up the bits in zigzag order, two columns at a time from the
    /// right edge, until the bits or the modules run out.
    pub fn fill(&mut self, bits: &Vec<Bit>)
        requires
            old(self).spec_stage() == BuilderStage::FunctionsDrawn,
        ensures
            final(self).spec_version() == old(self).spec_version(),
            final(self).spec_ec_level() == old(self).spec_ec_level(),
            final(self).spec_mask_pattern() == old(self).spec_mask_pattern(),
            final(self).spec_encoding() == old(self).spec_encoding(),
            final(self).spec_stage() == BuilderStage::DataPlaced,
            final(self)@ == with_data(old(self)@, old(self).spec_size(), bits@),
    {
        let ghost s = self.spec_size();
        let ghost before = self@;
        let ghost version = self.spec_version() as int;
        let ghost stream = bits@;
        let n = self.size();
        proof {
            use_type_invariant(&*self);
        }
        let pairs = (n - 1) / 2;
        let mut next: usize = 0;
        let mut pair: u32 = 0;
        while pair < pairs
            invariant
                pair <= pairs,
                pairs == (n - 1) / 2,
                n == s,
                s == 17 + 4 * version,
                1 <= version <= 40,
                s == self.spec_size(),
                stream == bits@,
                self.spec_version() == old(self).spec_version(),
                self.spec_ec_level() == old(self).spec_ec_level(),
                self.spec_mask_pattern() == old(self).spec_mask_pattern(),
                self.spec_encoding() == old(self).spec_encoding(),
                self@.len() == before.len(),
                next <= stream.len(),
                next == stream.len() || next == free_before_pair(before, s, pair as nat),
                next == stream.len() ==> stream.len() <= free_before_pair(before, s, pair as nat),
                forall|a: int, b: int|
                    in_grid(s, a, b) ==> #[trigger] module_at(self@, s, a, b) == (if a != 6
                        && pair_of_column(s, a) < pair {
                        data_paint(before, s, stream)(a, b, module_at(before, s, a, b))
                    } else {
                        module_at(before, s, a, b)
                    }),
            decreases pairs - pair,
        {
            let col = if n - 1 - 2 * pair > 6 {
                n - 1 - 2 * pair
            } else {
                n - 2 - 2 * pair
            };
            let upward = pair % 2 == 0;
            let ghost base = free_before_pair(before, s, pair as nat);
            let mut turn: u32 = 0;
            while turn < 2 * n
                invariant
                    turn <= 2 * n,
                    pair < pairs,
                    pairs == (n - 1) / 2,
                    n == s,
                    s == 17 + 4 * version,
                    1 <= version <= 40,
                    s == self.spec_size(),
                    stream == bits@,
                    col == crate::layout::pair_right(s, pair as int),
                    upward == (pair % 2 == 0),
                    base == free_before_pair(before, s, pair as nat),
                    self.spec_version() == old(self).spec_version(),
                    self.spec_ec_level() == old(self).spec_ec_level(),
                    self.spec_mask_pattern() == old(self).spec_mask_pattern(),
                    self.spec_encoding() == old(self).spec_encoding(),
                    self@.len() == before.len(),
                    next <= stream.len(),
                    next == stream.len() || next == base + free_in_pair(
                        before,
                        s,
                        pair as int,
                        turn as nat,
                    ),
                    next == stream.len() ==> stream.len() <= base + free_in_pair(
                        before,
                        s,
                        pair as int,
                        turn as nat,
                    ),
                    forall|a: int, b: int|
                        in_grid(s, a, b) ==> #[trigger] module_at(self@, s, a, b) == (if a != 6 && (
                        pair_of_column(s, a) < pair || (pair_of_column(s, a) == pair
                            && turn_in_pair(s, a, b) < turn)) {
                            data_paint(before, s, stream)(a, b, module_at(before, s, a, b))
                        } else {
                            module_at(before, s, a, b)
                        }),
                decreases 2 * n - turn,
            {
                let x = col - turn % 2;
                let y = if upward {
                    n - 1 - turn / 2
                } else {
                    turn / 2
                };
                proof {
                    assert(placement_rank(before, s, x as int, y as int) == base + free_in_pair(
                        before,
                        s,
                        pair as int,
                        turn as nat,
                    ));
                }
                let here = self.get(x, y);
                if let Some(module) = here {
                    if !module.is_functional() {
                        if next < bits.len() {
                            self.put(x, y, bits[next]);
                            next = next + 1;
                        }
                    }
                }
                turn = turn + 1;
            }
            pair = pair + 1;
        }
        proof {
            assert forall|a: int, b: int| in_grid(s, a, b) implies #[trigger] module_at(
                self@,
                s,
                a,
                b,
            ) == data_paint(before, s, stream)(a, b, module_at(before, s, a, b)) by {
                crate::layout::lemma_placement_order(version, a, b, 0, 0);
            }
            lemma_painted(before, self@, s, data_paint(before, s, stream));
            use_type_invariant(&*self);
        }
        self.stage = BuilderStage::DataPlaced;
    }

    /// Applies the mask pattern of the symbol: every module that is not
    /// reserved and that the pattern covers changes colour.
    pub fn apply_mask(&mut self)
        requires
            old(self).spec_stage() == BuilderStage::DataPlaced,
        ensures
            final(self).spec_version() == old(self).spec_version(),
            final(self).spec_ec_level() == old(self).spec_ec_level(),
            final(self).spec_mask_pattern() == old(self).spec_mask_pattern(),
            final(self).spec_encoding() == old(self).spec_encoding(),
            final(self).spec_stage() == BuilderStage::Masked,
            final(self)@ == with_mask(
                old(self)@,
                old(self).spec_size(),
                old(self).spec_mask_pattern(),
            ),
    {
        let ghost s = self.spec_size();
        let ghost before = self@;
        let ghost pattern = self.spec_mask_pattern();
        let mask = self.mask_pattern;
        let size = self.size();
        let mut x: u32 = 0;
        while x < size
            invariant
                x <= size,
                21 <= size <= 177,
                size == s,
                s == self.spec_size(),
                self.same_frame(old(self)),
                self@.len() == before.len(),
                mask == pattern,
                forall|a: int, b: int|
                    in_grid(s, a, b) ==> #[trigger] module_at(self@, s, a, b) == (if a < x {
                        mask_paint(pattern)(a, b, module_at(before, s, a, b))
                    } else {
                        module_at(before, s, a, b)
                    }),
            decreases size - x,
        {
            let mut y: u32 = 0;
            while y < size
                invariant
                    x < size,
                    y <= size,
                    21 <= size <= 177,
                    size == s,
                    s == self.spec_size(),
                    self.same_frame(old(self)),
                    self@.len() == before.len(),
                    mask == pattern,
                    forall|a: int, b: int|
                        in_grid(s, a, b) ==> #[trigger] module_at(self@, s, a, b) == (if a < x || (a
                            == x && b < y) {
                            mask_paint(pattern)(a, b, module_at(before, s, a, b))
                        } else {
                            module_at(before, s, a, b)
                        }),
                decreases size - y,
            {
                let here = self.get(x, y);
                if let Some(bit) = here {
                    if !bit.is_functional() {
                        if mask.is_masked(x, y) {
                            self.put(x, y, bit.invert());
                        }
                    }
                }
                y = y + 1;
            }
            x = x + 1;
        }
        proof {
            lemma_painted(before, self@, s, mask_paint(pattern));
            use_type_invariant(&*self);
        }
        self.stage = BuilderStage::Masked;
    }

    /// The picture of the symbol as text, for a terminal: two full blocks
    /// for each dark module and two spaces for each light one, line by
    /// line, inside a quiet zone of four light modules.
    pub fn render(&self) -> (picture: String)
        ensures
            picture@ == rendered(self@, self.spec_size()),
    {
        let ghost s = self.spec_size();
        let size = self.size();
        let mut picture = String::new();
        let mut line: u32 = 0;
        while line < size + 8
            invariant
                line <= size + 8,
                21 <= size <= 177,
                size == s,
                s == self.spec_size(),
                picture@ == rendered_lines(self@, s, line as nat),
            decreases size + 8 - line,
        {
            let ghost before = picture@;
            let ghost goal = rendered_line(self@, s, line as int);
            let mut column: u32 = 0;
            while column < size + 8
                invariant
                    column <= size + 8,
                    line < size + 8,
                    21 <= size <= 177,
                    size == s,
                    s == self.spec_size(),
                    goal == rendered_line(self@, s, line as int),
                    picture@ == before + goal.take(2 * column),
                decreases size + 8 - column,
            {
                let dark = if line >= 4 && column >= 4 {
                    match self.get(column - 4, line - 4) {
                        Some(module) => module.value(),
                        None => false,
                    }
                } else {
                    false
                };
                let c = if dark {
                    '\u{2588}'
                } else {
                    ' '
                };
                push_char(&mut picture, c);
                push_char(&mut picture, c);
                proof {
                    assert((2 * column) / 2 == column);
                }
                column = column + 1;
            }
            push_char(&mut picture, '\n');
            proof {
                assert(picture@ =~= before + goal);
            }
            line = line + 1;
        }
        picture
    }
}

} // verus!
