//! The generator polynomials of the error-correction code.
use crate::tables::field::{
    exp, lemma_tables_revealed, lemma_xor_by_digits, lemma_xor_zero, times_alpha_pow,
};
use vstd::prelude::*;

verus! {

/// Generator polynomials by degree. Row `d` holds, in its first `d` entries,
/// the logarithms of the coefficients of the monic polynomial of degree `d`
/// whose roots are the first `d` powers of the generator of the field, from
/// the coefficient below the leading one down to the constant term. The
/// rest of each row is filler.
pub const GENERATOR_POLYNOMIALS: [[u8; 30]; 31] = [
    [0, 0, 0, 0, 0, 0, 0, 0, 0, 0, 0, 0, 0, 0, 0, 0, 0, 0, 0, 0, 0, 0, 0, 0, 0, 0, 0, 0, 0, 0],
    [0, 0, 0, 0, 0, 0, 0, 0, 0, 0, 0, 0, 0, 0, 0, 0, 0, 0, 0, 0, 0, 0, 0, 0, 0, 0, 0, 0, 0, 0],
    [25, 1, 0, 0, 0, 0, 0, 0, 0, 0, 0, 0, 0, 0, 0, 0, 0, 0, 0, 0, 0, 0, 0, 0, 0, 0, 0, 0, 0, 0],
    [198, 199, 3, 0, 0, 0, 0, 0, 0, 0, 0, 0, 0, 0, 0, 0, 0, 0, 0, 0, 0, 0, 0, 0, 0, 0, 0, 0, 0, 0],
    [75, 249, 78, 6, 0, 0, 0, 0, 0, 0, 0, 0, 0, 0, 0, 0, 0, 0, 0, 0, 0, 0, 0, 0, 0, 0, 0, 0, 0, 0],
    [113, 164, 166, 119, 10, 0, 0, 0, 0, 0, 0, 0, 0, 0, 0, 0, 0, 0, 0, 0, 0, 0, 0, 0, 0, 0, 0, 0, 0, 0],
    [166, 0, 134, 5, 176, 15, 0, 0, 0, 0, 0, 0, 0, 0, 0, 0, 0, 0, 0, 0, 0, 0, 0, 0, 0, 0, 0, 0, 0, 0],
    [87, 229, 146, 149, 238, 102, 21, 0, 0, 0, 0, 0, 0, 0, 0, 0, 0, 0, 0, 0, 0, 0, 0, 0, 0, 0, 0, 0, 0, 0],
    [175, 238, 208, 249, 215, 252, 196, 28, 0, 0, 0, 0, 0, 0, 0, 0, 0, 0, 0, 0, 0, 0, 0, 0, 0, 0, 0, 0, 0, 0],
    [95, 246, 137, 231, 235, 149, 11, 123, 36, 0, 0, 0, 0, 0, 0, 0, 0, 0, 0, 0, 0, 0, 0, 0, 0, 0, 0, 0, 0, 0],
    [251, 67, 46, 61, 118, 70, 64, 94, 32, 45, 0, 0, 0, 0, 0, 0, 0, 0, 0, 0, 0, 0, 0, 0, 0, 0, 0, 0, 0, 0],
    [220, 192, 91, 194, 172, 177, 209, 116, 227, 10, 55, 0, 0, 0, 0, 0, 0, 0, 0, 0, 0, 0, 0, 0, 0, 0, 0, 0, 0, 0],
    [102, 43, 98, 121, 187, 113, 198, 143, 131, 87, 157, 66, 0, 0, 0, 0, 0, 0, 0, 0, 0, 0, 0, 0, 0, 0, 0, 0, 0, 0],
    [74, 152, 176, 100, 86, 100, 106, 104, 130, 218, 206, 140, 78, 0, 0, 0, 0, 0, 0, 0, 0, 0, 0, 0, 0, 0, 0, 0, 0, 0],
    [199, 249, 155, 48, 190, 124, 218, 137, 216, 87, 207, 59, 22, 91, 0, 0, 0, 0, 0, 0, 0, 0, 0, 0, 0, 0, 0, 0, 0, 0],
    [8, 183, 61, 91, 202, 37, 51, 58, 58, 237, 140, 124, 5, 99, 105, 0, 0, 0, 0, 0, 0, 0, 0, 0, 0, 0, 0, 0, 0, 0],
    [120, 104, 107, 109, 102, 161, 76, 3, 91, 191, 147, 169, 182, 194, 225, 120, 0, 0, 0, 0, 0, 0, 0, 0, 0, 0, 0, 0, 0, 0],
    [43, 139, 206, 78, 43, 239, 123, 206, 214, 147, 24, 99, 150, 39, 243, 163, 136, 0, 0, 0, 0, 0, 0, 0, 0, 0, 0, 0, 0, 0],
    [215, 234, 158, 94, 184, 97, 118, 170, 79, 187, 152, 148, 252, 179, 5, 98, 96, 153, 0, 0, 0, 0, 0, 0, 0, 0, 0, 0, 0, 0],
    [67, 3, 105, 153, 52, 90, 83, 17, 150, 159, 44, 128, 153, 133, 252, 222, 138, 220, 171, 0, 0, 0, 0, 0, 0, 0, 0, 0, 0, 0],
    [17, 60, 79, 50, 61, 163, 26, 187, 202, 180, 221, 225, 83, 239, 156, 164, 212, 212, 188, 190, 0, 0, 0, 0, 0, 0, 0, 0, 0, 0],
    [240, 233, 104, 247, 181, 140, 67, 98, 85, 200, 210, 115, 148, 137, 230, 36, 122, 254, 148, 175, 210, 0, 0, 0, 0, 0, 0, 0, 0, 0],
    [210, 171, 247, 242, 93, 230, 14, 109, 221, 53, 200, 74, 8, 172, 98, 80, 219, 134, 160, 105, 165, 231, 0, 0, 0, 0, 0, 0, 0, 0],
    [171, 102, 146, 91, 49, 103, 65, 17, 193, 150, 14, 25, 183, 248, 94, 164, 224, 192, 1, 78, 56, 147, 253, 0, 0, 0, 0, 0, 0, 0],
    [229, 121, 135, 48, 211, 117, 251, 126, 159, 180, 169, 152, 192, 226, 228, 218, 111, 0, 117, 232, 87, 96, 227, 21, 0, 0, 0, 0, 0, 0],
    [231, 181, 156, 39, 170, 26, 12, 59, 15, 148, 201, 54, 66, 237, 208, 99, 167, 144, 182, 95, 243, 129, 178, 252, 45, 0, 0, 0, 0, 0],
    [173, 125, 158, 2, 103, 182, 118, 17, 145, 201, 111, 28, 165, 53, 161, 21, 245, 142, 13, 102, 48, 227, 153, 145, 218, 70, 0, 0, 0, 0],
    [79, 228, 8, 165, 227, 21, 180, 29, 9, 237, 70, 99, 45, 58, 138, 135, 73, 126, 172, 94, 216, 193, 157, 26, 17, 149, 96, 0, 0, 0],
    [168, 223, 200, 104, 224, 234, 108, 180, 110, 190, 195, 147, 205, 27, 232, 201, 21, 43, 245, 87, 42, 195, 212, 119, 242, 37, 9, 123, 0, 0],
    [156, 45, 183, 29, 151, 219, 54, 96, 249, 24, 136, 5, 241, 175, 189, 28, 75, 234, 150, 148, 23, 9, 202, 162, 68, 250, 140, 24, 151, 0],
    [41, 173, 145, 152, 216, 31, 179, 182, 50, 48, 110, 86, 239, 96, 222, 125, 42, 173, 226, 193, 224, 130, 156, 37, 251, 216, 238, 40, 192, 180],
];

/// The generator polynomial of the given degree, as the logarithms of its
/// coefficients below the leading one, highest power first.
pub closed spec fn generator(degree: int) -> Seq<u8> {
    Seq::new(degree as nat, |j: int| GENERATOR_POLYNOMIALS[degree][j])
}

/// The generator polynomial of a degree has as many coefficients below the
/// leading one as the degree says, and they are those of the table.
pub proof fn lemma_generator(degree: int)
    requires
        0 <= degree <= 30,
    ensures
        generator(degree).len() == degree,
        forall|j: int|
            0 <= j < degree ==> #[trigger] generator(degree)[j] == GENERATOR_POLYNOMIALS[degree][j],
{
}

/// The length of a generator polynomial alone.
pub proof fn lemma_generator_len(degree: int)
    requires
        0 <= degree,
    ensures
        generator(degree).len() == degree,
{
}

/// Reads the generator polynomial of a degree from the table.
pub fn generator_polynomial(degree: usize) -> (coefficients: Vec<u8>)
    requires
        degree <= 30,
    ensures
        coefficients@ == generator(degree as int),
{
    let mut coefficients: Vec<u8> = Vec::new();
    let mut j: usize = 0;
    while j < degree
        invariant
            j <= degree <= 30,
            coefficients@ == generator(degree as int).take(j as int),
        decreases degree - j,
    {
        coefficients.push(GENERATOR_POLYNOMIALS[degree][j]);
        j = j + 1;
    }
    coefficients
}


/// Coefficient `j` of the generator polynomial of a degree, as an element
/// of the field, counted from the coefficient below the leading one:
/// coefficient -1 is the leading coefficient, which is 1, and the
/// coefficients past the constant term are 0.
pub open spec fn coefficient(degree: int, j: int) -> u8 {
    if j == -1 {
        1
    } else if 0 <= j < degree {
        exp(generator(degree)[j] as int)
    } else {
        0
    }
}

proof fn lemma_degree_1(j: int)
    requires
        0 <= j < 1,
    ensures
        coefficient(1, j) == coefficient(0, j) ^ times_alpha_pow(coefficient(0, j - 1), 0),
{
    lemma_tables_revealed();
    if j == 0 {
        lemma_xor_by_digits(0, 1);
    }
}

proof fn lemma_degree_2(j: int)
    requires
        0 <= j < 2,
    ensures
        coefficient(2, j) == coefficient(1, j) ^ times_alpha_pow(coefficient(1, j - 1), 1),
{
    lemma_tables_revealed();
    if j == 0 {
        lemma_xor_by_digits(1, 2);
    } else if j == 1 {
        lemma_xor_by_digits(0, 2);
    }
}

proof fn lemma_degree_3(j: int)
    requires
        0 <= j < 3,
    ensures
        coefficient(3, j) == coefficient(2, j) ^ times_alpha_pow(coefficient(2, j - 1), 2),
{
    lemma_tables_revealed();
    if j == 0 {
        lemma_xor_by_digits(3, 4);
    } else if j == 1 {
        lemma_xor_by_digits(2, 12);
    } else if j == 2 {
        lemma_xor_by_digits(0, 8);
    }
}

proof fn lemma_degree_4(j: int)
    requires
        0 <= j < 4,
    ensures
        coefficient(4, j) == coefficient(3, j) ^ times_alpha_pow(coefficient(3, j - 1), 3),
{
    lemma_tables_revealed();
    if j == 0 {
        lemma_xor_by_digits(7, 8);
    } else if j == 1 {
        lemma_xor_by_digits(14, 56);
    } else if j == 2 {
        lemma_xor_by_digits(8, 112);
    } else if j == 3 {
        lemma_xor_by_digits(0, 64);
    }
}

proof fn lemma_degree_5(j: int)
    requires
        0 <= j < 5,
    ensures
        coefficient(5, j) == coefficient(4, j) ^ times_alpha_pow(coefficient(4, j - 1), 4),
{
    lemma_tables_revealed();
    if j == 0 {
        lemma_xor_by_digits(15, 16);
    } else if j == 1 {
        lemma_xor_by_digits(54, 240);
    } else if j == 2 {
        lemma_xor_by_digits(120, 71);
    } else if j == 3 {
        lemma_xor_by_digits(64, 211);
    } else if j == 4 {
        lemma_xor_by_digits(0, 116);
    }
}

proof fn lemma_degree_6(j: int)
    requires
        0 <= j < 6,
    ensures
        coefficient(6, j) == coefficient(5, j) ^ times_alpha_pow(coefficient(5, j - 1), 5),
{
    lemma_tables_revealed();
    if j == 0 {
        lemma_xor_by_digits(31, 32);
    } else if j == 1 {
        lemma_xor_by_digits(198, 199);
    } else if j == 2 {
        lemma_xor_by_digits(63, 229);
    } else if j == 3 {
        lemma_xor_by_digits(147, 179);
    } else if j == 4 {
        lemma_xor_by_digits(116, 151);
    } else if j == 5 {
        lemma_xor_by_digits(0, 38);
    }
}

proof fn lemma_degree_7(j: int)
    requires
        0 <= j < 7,
    ensures
        coefficient(7, j) == coefficient(6, j) ^ times_alpha_pow(coefficient(6, j - 1), 6),
{
    lemma_tables_revealed();
    if j == 0 {
        lemma_xor_by_digits(63, 64);
    } else if j == 1 {
        lemma_xor_by_digits(1, 123);
    } else if j == 2 {
        lemma_xor_by_digits(218, 64);
    } else if j == 3 {
        lemma_xor_by_digits(32, 132);
    } else if j == 4 {
        lemma_xor_by_digits(227, 232);
    } else if j == 5 {
        lemma_xor_by_digits(38, 98);
    } else if j == 6 {
        lemma_xor_by_digits(0, 117);
    }
}

proof fn lemma_degree_8(j: int)
    requires
        0 <= j < 8,
    ensures
        coefficient(8, j) == coefficient(7, j) ^ times_alpha_pow(coefficient(7, j - 1), 7),
{
    lemma_tables_revealed();
    if j == 0 {
        lemma_xor_by_digits(127, 128);
    } else if j == 1 {
        lemma_xor_by_digits(122, 113);
    } else if j == 2 {
        lemma_xor_by_digits(154, 203);
    } else if j == 3 {
        lemma_xor_by_digits(164, 146);
    } else if j == 4 {
        lemma_xor_by_digits(11, 228);
    } else if j == 5 {
        lemma_xor_by_digits(68, 233);
    } else if j == 6 {
        lemma_xor_by_digits(117, 189);
    } else if j == 7 {
        lemma_xor_by_digits(0, 24);
    }
}

proof fn lemma_degree_9(j: int)
    requires
        0 <= j < 9,
    ensures
        coefficient(9, j) == coefficient(8, j) ^ times_alpha_pow(coefficient(8, j - 1), 8),
{
    lemma_tables_revealed();
    if j == 0 {
        lemma_xor_by_digits(255, 29);
    } else if j == 1 {
        lemma_xor_by_digits(11, 196);
    } else if j == 2 {
        lemma_xor_by_digits(81, 207);
    } else if j == 3 {
        lemma_xor_by_digits(54, 195);
    } else if j == 4 {
        lemma_xor_by_digits(239, 4);
    } else if j == 5 {
        lemma_xor_by_digits(173, 9);
    } else if j == 6 {
        lemma_xor_by_digits(200, 32);
    } else if j == 7 {
        lemma_xor_by_digits(24, 221);
    } else if j == 8 {
        lemma_xor_by_digits(0, 37);
    }
}

proof fn lemma_degree_10(j: int)
    requires
        0 <= j < 10,
    ensures
        coefficient(10, j) == coefficient(9, j) ^ times_alpha_pow(coefficient(9, j - 1), 9),
{
    lemma_tables_revealed();
    if j == 0 {
        lemma_xor_by_digits(226, 58);
    } else if j == 1 {
        lemma_xor_by_digits(207, 13);
    } else if j == 2 {
        lemma_xor_by_digits(158, 1);
    } else if j == 3 {
        lemma_xor_by_digits(245, 154);
    } else if j == 4 {
        lemma_xor_by_digits(235, 44);
    } else if j == 5 {
        lemma_xor_by_digits(164, 250);
    } else if j == 6 {
        lemma_xor_by_digits(232, 183);
    } else if j == 7 {
        lemma_xor_by_digits(197, 180);
    } else if j == 8 {
        lemma_xor_by_digits(37, 184);
    } else if j == 9 {
        lemma_xor_by_digits(0, 193);
    }
}

proof fn lemma_degree_11(j: int)
    requires
        0 <= j < 11,
    ensures
        coefficient(11, j) == coefficient(10, j) ^ times_alpha_pow(coefficient(10, j - 1), 10),
{
    lemma_tables_revealed();
    if j == 0 {
        lemma_xor_by_digits(216, 116);
    } else if j == 1 {
        lemma_xor_by_digits(194, 64);
    } else if j == 2 {
        lemma_xor_by_digits(159, 60);
    } else if j == 3 {
        lemma_xor_by_digits(111, 93);
    } else if j == 4 {
        lemma_xor_by_digits(199, 188);
    } else if j == 5 {
        lemma_xor_by_digits(94, 133);
    } else if j == 6 {
        lemma_xor_by_digits(95, 253);
    } else if j == 7 {
        lemma_xor_by_digits(113, 137);
    } else if j == 8 {
        lemma_xor_by_digits(157, 13);
    } else if j == 9 {
        lemma_xor_by_digits(193, 181);
    } else if j == 10 {
        lemma_xor_by_digits(0, 160);
    }
}

proof fn lemma_degree_12(j: int)
    requires
        0 <= j < 12,
    ensures
        coefficient(12, j) == coefficient(11, j) ^ times_alpha_pow(coefficient(11, j - 1), 11),
{
    lemma_tables_revealed();
    if j == 0 {
        lemma_xor_by_digits(172, 232);
    } else if j == 1 {
        lemma_xor_by_digits(130, 245);
    } else if j == 2 {
        lemma_xor_by_digits(163, 224);
    } else if j == 3 {
        lemma_xor_by_digits(50, 68);
    } else if j == 4 {
        lemma_xor_by_digits(123, 167);
    } else if j == 5 {
        lemma_xor_by_digits(219, 196);
    } else if j == 6 {
        lemma_xor_by_digits(162, 165);
    } else if j == 7 {
        lemma_xor_by_digits(248, 172);
    } else if j == 8 {
        lemma_xor_by_digits(144, 204);
    } else if j == 9 {
        lemma_xor_by_digits(116, 11);
    } else if j == 10 {
        lemma_xor_by_digits(160, 117);
    } else if j == 11 {
        lemma_xor_by_digits(0, 97);
    }
}

proof fn lemma_degree_13(j: int)
    requires
        0 <= j < 13,
    ensures
        coefficient(13, j) == coefficient(12, j) ^ times_alpha_pow(coefficient(12, j - 1), 12),
{
    lemma_tables_revealed();
    if j == 0 {
        lemma_xor_by_digits(68, 205);
    } else if j == 1 {
        lemma_xor_by_digits(119, 62);
    } else if j == 2 {
        lemma_xor_by_digits(67, 160);
    } else if j == 3 {
        lemma_xor_by_digits(118, 103);
    } else if j == 4 {
        lemma_xor_by_digits(220, 109);
    } else if j == 5 {
        lemma_xor_by_digits(31, 14);
    } else if j == 6 {
        lemma_xor_by_digits(7, 51);
    } else if j == 7 {
        lemma_xor_by_digits(84, 89);
    } else if j == 8 {
        lemma_xor_by_digits(92, 114);
    } else if j == 9 {
        lemma_xor_by_digits(127, 84);
    } else if j == 10 {
        lemma_xor_by_digits(213, 134);
    } else if j == 11 {
        lemma_xor_by_digits(97, 229);
    } else if j == 12 {
        lemma_xor_by_digits(0, 120);
    }
}

proof fn lemma_degree_14(j: int)
    requires
        0 <= j < 14,
    ensures
        coefficient(14, j) == coefficient(13, j) ^ times_alpha_pow(coefficient(13, j - 1), 13),
{
    lemma_tables_revealed();
    if j == 0 {
        lemma_xor_by_digits(137, 135);
    } else if j == 1 {
        lemma_xor_by_digits(73, 127);
    } else if j == 2 {
        lemma_xor_by_digits(227, 145);
    } else if j == 3 {
        lemma_xor_by_digits(17, 87);
    } else if j == 4 {
        lemma_xor_by_digits(177, 31);
    } else if j == 5 {
        lemma_xor_by_digits(17, 134);
    } else if j == 6 {
        lemma_xor_by_digits(52, 31);
    } else if j == 7 {
        lemma_xor_by_digits(13, 147);
    } else if j == 8 {
        lemma_xor_by_digits(46, 237);
    } else if j == 9 {
        lemma_xor_by_digits(43, 84);
    } else if j == 10 {
        lemma_xor_by_digits(83, 245);
    } else if j == 11 {
        lemma_xor_by_digits(132, 86);
    } else if j == 12 {
        lemma_xor_by_digits(120, 146);
    } else if j == 13 {
        lemma_xor_by_digits(0, 163);
    }
}

proof fn lemma_degree_15(j: int)
    requires
        0 <= j < 15,
    ensures
        coefficient(15, j) == coefficient(14, j) ^ times_alpha_pow(coefficient(14, j - 1), 14),
{
    lemma_tables_revealed();
    if j == 0 {
        lemma_xor_by_digits(14, 19);
    } else if j == 1 {
        lemma_xor_by_digits(54, 242);
    } else if j == 2 {
        lemma_xor_by_digits(114, 29);
    } else if j == 3 {
        lemma_xor_by_digits(70, 229);
    } else if j == 4 {
        lemma_xor_by_digits(174, 222);
    } else if j == 5 {
        lemma_xor_by_digits(151, 221);
    } else if j == 6 {
        lemma_xor_by_digits(43, 33);
    } else if j == 7 {
        lemma_xor_by_digits(158, 247);
    } else if j == 8 {
        lemma_xor_by_digits(195, 170);
    } else if j == 9 {
        lemma_xor_by_digits(127, 244);
    } else if j == 10 {
        lemma_xor_by_digits(166, 34);
    } else if j == 11 {
        lemma_xor_by_digits(210, 69);
    } else if j == 12 {
        lemma_xor_by_digits(234, 202);
    } else if j == 13 {
        lemma_xor_by_digits(163, 37);
    } else if j == 14 {
        lemma_xor_by_digits(0, 26);
    }
}

proof fn lemma_degree_16(j: int)
    requires
        0 <= j < 16,
    ensures
        coefficient(16, j) == coefficient(15, j) ^ times_alpha_pow(coefficient(15, j - 1), 15),
{
    lemma_tables_revealed();
    if j == 0 {
        lemma_xor_by_digits(29, 38);
    } else if j == 1 {
        lemma_xor_by_digits(196, 201);
    } else if j == 2 {
        lemma_xor_by_digits(111, 7);
    } else if j == 3 {
        lemma_xor_by_digits(163, 30);
    } else if j == 4 {
        lemma_xor_by_digits(112, 52);
    } else if j == 5 {
        lemma_xor_by_digits(74, 155);
    } else if j == 6 {
        lemma_xor_by_digits(10, 20);
    } else if j == 7 {
        lemma_xor_by_digits(105, 97);
    } else if j == 8 {
        lemma_xor_by_digits(105, 202);
    } else if j == 9 {
        lemma_xor_by_digits(139, 202);
    } else if j == 10 {
        lemma_xor_by_digits(132, 173);
    } else if j == 11 {
        lemma_xor_by_digits(151, 114);
    } else if j == 12 {
        lemma_xor_by_digits(32, 66);
    } else if j == 13 {
        lemma_xor_by_digits(134, 180);
    } else if j == 14 {
        lemma_xor_by_digits(26, 62);
    } else if j == 15 {
        lemma_xor_by_digits(0, 59);
    }
}

proof fn lemma_degree_17(j: int)
    requires
        0 <= j < 17,
    ensures
        coefficient(17, j) == coefficient(16, j) ^ times_alpha_pow(coefficient(16, j - 1), 16),
{
    lemma_tables_revealed();
    if j == 0 {
        lemma_xor_by_digits(59, 76);
    } else if j == 1 {
        lemma_xor_by_digits(13, 79);
    } else if j == 2 {
        lemma_xor_by_digits(104, 59);
    } else if j == 3 {
        lemma_xor_by_digits(189, 197);
    } else if j == 4 {
        lemma_xor_by_digits(68, 51);
    } else if j == 5 {
        lemma_xor_by_digits(209, 199);
    } else if j == 6 {
        lemma_xor_by_digits(30, 219);
    } else if j == 7 {
        lemma_xor_by_digits(8, 91);
    } else if j == 8 {
        lemma_xor_by_digits(163, 90);
    } else if j == 9 {
        lemma_xor_by_digits(65, 104);
    } else if j == 10 {
        lemma_xor_by_digits(41, 166);
    } else if j == 11 {
        lemma_xor_by_digits(229, 99);
    } else if j == 12 {
        lemma_xor_by_digits(98, 55);
    } else if j == 13 {
        lemma_xor_by_digits(50, 7);
    } else if j == 14 {
        lemma_xor_by_digits(36, 89);
    } else if j == 15 {
        lemma_xor_by_digits(59, 88);
    } else if j == 16 {
        lemma_xor_by_digits(0, 79);
    }
}

proof fn lemma_degree_18(j: int)
    requires
        0 <= j < 18,
    ensures
        coefficient(18, j) == coefficient(17, j) ^ times_alpha_pow(coefficient(17, j - 1), 17),
{
    lemma_tables_revealed();
    if j == 0 {
        lemma_xor_by_digits(119, 152);
    } else if j == 1 {
        lemma_xor_by_digits(66, 185);
    } else if j == 2 {
        lemma_xor_by_digits(83, 228);
    } else if j == 3 {
        lemma_xor_by_digits(120, 9);
    } else if j == 4 {
        lemma_xor_by_digits(119, 226);
    } else if j == 5 {
        lemma_xor_by_digits(22, 185);
    } else if j == 6 {
        lemma_xor_by_digits(197, 2);
    } else if j == 7 {
        lemma_xor_by_digits(83, 132);
    } else if j == 8 {
        lemma_xor_by_digits(249, 9);
    } else if j == 9 {
        lemma_xor_by_digits(41, 245);
    } else if j == 10 {
        lemma_xor_by_digits(143, 198);
    } else if j == 11 {
        lemma_xor_by_digits(134, 212);
    } else if j == 12 {
        lemma_xor_by_digits(85, 248);
    } else if j == 13 {
        lemma_xor_by_digits(53, 126);
    } else if j == 14 {
        lemma_xor_by_digits(125, 93);
    } else if j == 15 {
        lemma_xor_by_digits(99, 32);
    } else if j == 16 {
        lemma_xor_by_digits(79, 150);
    } else if j == 17 {
        lemma_xor_by_digits(0, 146);
    }
}

proof fn lemma_degree_19(j: int)
    requires
        0 <= j < 19,
    ensures
        coefficient(19, j) == coefficient(18, j) ^ times_alpha_pow(coefficient(18, j - 1), 18),
{
    lemma_tables_revealed();
    if j == 0 {
        lemma_xor_by_digits(239, 45);
    } else if j == 1 {
        lemma_xor_by_digits(251, 243);
    } else if j == 2 {
        lemma_xor_by_digits(183, 173);
    } else if j == 3 {
        lemma_xor_by_digits(113, 227);
    } else if j == 4 {
        lemma_xor_by_digits(149, 129);
    } else if j == 5 {
        lemma_xor_by_digits(175, 112);
    } else if j == 6 {
        lemma_xor_by_digits(199, 124);
    } else if j == 7 {
        lemma_xor_by_digits(215, 79);
    } else if j == 8 {
        lemma_xor_by_digits(240, 165);
    } else if j == 9 {
        lemma_xor_by_digits(220, 175);
    } else if j == 10 {
        lemma_xor_by_digits(73, 167);
    } else if j == 11 {
        lemma_xor_by_digits(82, 215);
    } else if j == 12 {
        lemma_xor_by_digits(173, 63);
    } else if j == 13 {
        lemma_xor_by_digits(75, 38);
    } else if j == 14 {
        lemma_xor_by_digits(32, 141);
    } else if j == 15 {
        lemma_xor_by_digits(67, 201);
    } else if j == 16 {
        lemma_xor_by_digits(217, 248);
    } else if j == 17 {
        lemma_xor_by_digits(146, 62);
    } else if j == 18 {
        lemma_xor_by_digits(0, 179);
    }
}

proof fn lemma_degree_20(j: int)
    requires
        0 <= j < 20,
    ensures
        coefficient(20, j) == coefficient(19, j) ^ times_alpha_pow(coefficient(19, j - 1), 19),
{
    lemma_tables_revealed();
    if j == 0 {
        lemma_xor_by_digits(194, 90);
    } else if j == 1 {
        lemma_xor_by_digits(8, 177);
    } else if j == 2 {
        lemma_xor_by_digits(26, 234);
    } else if j == 3 {
        lemma_xor_by_digits(146, 151);
    } else if j == 4 {
        lemma_xor_by_digits(20, 123);
    } else if j == 5 {
        lemma_xor_by_digits(223, 188);
    } else if j == 6 {
        lemma_xor_by_digits(187, 189);
    } else if j == 7 {
        lemma_xor_by_digits(152, 68);
    } else if j == 8 {
        lemma_xor_by_digits(85, 37);
    } else if j == 9 {
        lemma_xor_by_digits(115, 229);
    } else if j == 10 {
        lemma_xor_by_digits(238, 171);
    } else if j == 11 {
        lemma_xor_by_digits(133, 161);
    } else if j == 12 {
        lemma_xor_by_digits(146, 41);
    } else if j == 13 {
        lemma_xor_by_digits(109, 123);
    } else if j == 14 {
        lemma_xor_by_digits(173, 73);
    } else if j == 15 {
        lemma_xor_by_digits(138, 76);
    } else if j == 16 {
        lemma_xor_by_digits(33, 88);
    } else if j == 17 {
        lemma_xor_by_digits(172, 213);
    } else if j == 18 {
        lemma_xor_by_digits(179, 22);
    } else if j == 19 {
        lemma_xor_by_digits(0, 174);
    }
}

proof fn lemma_degree_21(j: int)
    requires
        0 <= j < 21,
    ensures
        coefficient(21, j) == coefficient(20, j) ^ times_alpha_pow(coefficient(20, j - 1), 20),
{
    lemma_tables_revealed();
    if j == 0 {
        lemma_xor_by_digits(152, 180);
    } else if j == 1 {
        lemma_xor_by_digits(185, 74);
    } else if j == 2 {
        lemma_xor_by_digits(240, 253);
    } else if j == 3 {
        lemma_xor_by_digits(5, 134);
    } else if j == 4 {
        lemma_xor_by_digits(111, 94);
    } else if j == 5 {
        lemma_xor_by_digits(99, 231);
    } else if j == 6 {
        lemma_xor_by_digits(6, 196);
    } else if j == 7 {
        lemma_xor_by_digits(220, 159);
    } else if j == 8 {
        lemma_xor_by_digits(112, 166);
    } else if j == 9 {
        lemma_xor_by_digits(150, 138);
    } else if j == 10 {
        lemma_xor_by_digits(69, 28);
    } else if j == 11 {
        lemma_xor_by_digits(36, 88);
    } else if j == 12 {
        lemma_xor_by_digits(187, 233);
    } else if j == 13 {
        lemma_xor_by_digits(22, 136);
    } else if j == 14 {
        lemma_xor_by_digits(228, 16);
    } else if j == 15 {
        lemma_xor_by_digits(198, 227);
    } else if j == 16 {
        lemma_xor_by_digits(121, 149);
    } else if j == 17 {
        lemma_xor_by_digits(121, 247);
    } else if j == 18 {
        lemma_xor_by_digits(165, 247);
    } else if j == 19 {
        lemma_xor_by_digits(174, 81);
    } else if j == 20 {
        lemma_xor_by_digits(0, 89);
    }
}

proof fn lemma_degree_22(j: int)
    requires
        0 <= j < 22,
    ensures
        coefficient(22, j) == coefficient(21, j) ^ times_alpha_pow(coefficient(21, j - 1), 21),
{
    lemma_tables_revealed();
    if j == 0 {
        lemma_xor_by_digits(44, 117);
    } else if j == 1 {
        lemma_xor_by_digits(243, 64);
    } else if j == 2 {
        lemma_xor_by_digits(13, 142);
    } else if j == 3 {
        lemma_xor_by_digits(131, 51);
    } else if j == 4 {
        lemma_xor_by_digits(49, 135);
    } else if j == 5 {
        lemma_xor_by_digits(132, 112);
    } else if j == 6 {
        lemma_xor_by_digits(194, 209);
    } else if j == 7 {
        lemma_xor_by_digits(67, 254);
    } else if j == 8 {
        lemma_xor_by_digits(214, 147);
    } else if j == 9 {
        lemma_xor_by_digits(28, 52);
    } else if j == 10 {
        lemma_xor_by_digits(89, 69);
    } else if j == 11 {
        lemma_xor_by_digits(124, 245);
    } else if j == 12 {
        lemma_xor_by_digits(82, 79);
    } else if j == 13 {
        lemma_xor_by_digits(158, 229);
    } else if j == 14 {
        lemma_xor_by_digits(244, 183);
    } else if j == 15 {
        lemma_xor_by_digits(37, 216);
    } else if j == 16 {
        lemma_xor_by_digits(236, 186);
    } else if j == 17 {
        lemma_xor_by_digits(142, 84);
    } else if j == 18 {
        lemma_xor_by_digits(82, 180);
    } else if j == 19 {
        lemma_xor_by_digits(255, 229);
    } else if j == 20 {
        lemma_xor_by_digits(89, 200);
    } else if j == 21 {
        lemma_xor_by_digits(0, 245);
    }
}

proof fn lemma_degree_23(j: int)
    requires
        0 <= j < 23,
    ensures
        coefficient(23, j) == coefficient(22, j) ^ times_alpha_pow(coefficient(22, j - 1), 22),
{
    lemma_tables_revealed();
    if j == 0 {
        lemma_xor_by_digits(89, 234);
    } else if j == 1 {
        lemma_xor_by_digits(179, 247);
    } else if j == 2 {
        lemma_xor_by_digits(131, 25);
    } else if j == 3 {
        lemma_xor_by_digits(176, 19);
    } else if j == 4 {
        lemma_xor_by_digits(182, 58);
    } else if j == 5 {
        lemma_xor_by_digits(244, 124);
    } else if j == 6 {
        lemma_xor_by_digits(19, 173);
    } else if j == 7 {
        lemma_xor_by_digits(189, 37);
    } else if j == 8 {
        lemma_xor_by_digits(69, 92);
    } else if j == 9 {
        lemma_xor_by_digits(40, 125);
    } else if j == 10 {
        lemma_xor_by_digits(28, 15);
    } else if j == 11 {
        lemma_xor_by_digits(137, 138);
    } else if j == 12 {
        lemma_xor_by_digits(29, 217);
    } else if j == 13 {
        lemma_xor_by_digits(123, 96);
    } else if j == 14 {
        lemma_xor_by_digits(67, 50);
    } else if j == 15 {
        lemma_xor_by_digits(253, 59);
    } else if j == 16 {
        lemma_xor_by_digits(86, 68);
    } else if j == 17 {
        lemma_xor_by_digits(218, 88);
    } else if j == 18 {
        lemma_xor_by_digits(230, 228);
    } else if j == 19 {
        lemma_xor_by_digits(26, 98);
    } else if j == 20 {
        lemma_xor_by_digits(145, 204);
    } else if j == 21 {
        lemma_xor_by_digits(245, 220);
    } else if j == 22 {
        lemma_xor_by_digits(0, 71);
    }
}

proof fn lemma_degree_24(j: int)
    requires
        0 <= j < 24,
    ensures
        coefficient(24, j) == coefficient(23, j) ^ times_alpha_pow(coefficient(23, j - 1), 23),
{
    lemma_tables_revealed();
    if j == 0 {
        lemma_xor_by_digits(179, 201);
    } else if j == 1 {
        lemma_xor_by_digits(68, 50);
    } else if j == 2 {
        lemma_xor_by_digits(154, 51);
    } else if j == 3 {
        lemma_xor_by_digits(163, 229);
    } else if j == 4 {
        lemma_xor_by_digits(140, 62);
    } else if j == 5 {
        lemma_xor_by_digits(136, 101);
    } else if j == 6 {
        lemma_xor_by_digits(190, 102);
    } else if j == 7 {
        lemma_xor_by_digits(152, 254);
    } else if j == 8 {
        lemma_xor_by_digits(25, 106);
    } else if j == 9 {
        lemma_xor_by_digits(85, 195);
    } else if j == 10 {
        lemma_xor_by_digits(19, 246);
    } else if j == 11 {
        lemma_xor_by_digits(3, 74);
    } else if j == 12 {
        lemma_xor_by_digits(196, 70);
    } else if j == 13 {
        lemma_xor_by_digits(27, 83);
    } else if j == 14 {
        lemma_xor_by_digits(113, 76);
    } else if j == 15 {
        lemma_xor_by_digits(198, 237);
    } else if j == 16 {
        lemma_xor_by_digits(18, 220);
    } else if j == 17 {
        lemma_xor_by_digits(130, 131);
    } else if j == 18 {
        lemma_xor_by_digits(2, 239);
    } else if j == 19 {
        lemma_xor_by_digits(120, 143);
    } else if j == 20 {
        lemma_xor_by_digits(93, 34);
    } else if j == 21 {
        lemma_xor_by_digits(41, 240);
    } else if j == 22 {
        lemma_xor_by_digits(71, 215);
    } else if j == 23 {
        lemma_xor_by_digits(0, 117);
    }
}

proof fn lemma_degree_25(j: int)
    requires
        0 <= j < 25,
    ensures
        coefficient(25, j) == coefficient(24, j) ^ times_alpha_pow(coefficient(24, j - 1), 24),
{
    lemma_tables_revealed();
    if j == 0 {
        lemma_xor_by_digits(122, 143);
    } else if j == 1 {
        lemma_xor_by_digits(118, 71);
    } else if j == 2 {
        lemma_xor_by_digits(169, 77);
    } else if j == 3 {
        lemma_xor_by_digits(70, 115);
    } else if j == 4 {
        lemma_xor_by_digits(178, 101);
    } else if j == 5 {
        lemma_xor_by_digits(237, 235);
    } else if j == 6 {
        lemma_xor_by_digits(216, 21);
    } else if j == 7 {
        lemma_xor_by_digits(102, 180);
    } else if j == 8 {
        lemma_xor_by_digits(115, 85);
    } else if j == 9 {
        lemma_xor_by_digits(150, 196);
    } else if j == 10 {
        lemma_xor_by_digits(229, 221);
    } else if j == 11 {
        lemma_xor_by_digits(73, 25);
    } else if j == 12 {
        lemma_xor_by_digits(130, 227);
    } else if j == 13 {
        lemma_xor_by_digits(72, 195);
    } else if j == 14 {
        lemma_xor_by_digits(61, 108);
    } else if j == 15 {
        lemma_xor_by_digits(43, 173);
    } else if j == 16 {
        lemma_xor_by_digits(206, 176);
    } else if j == 17 {
        lemma_xor_by_digits(1, 169);
    } else if j == 18 {
        lemma_xor_by_digits(237, 143);
    } else if j == 19 {
        lemma_xor_by_digits(247, 21);
    } else if j == 20 {
        lemma_xor_by_digits(127, 2);
    } else if j == 21 {
        lemma_xor_by_digits(217, 206);
    } else if j == 22 {
        lemma_xor_by_digits(144, 59);
    } else if j == 23 {
        lemma_xor_by_digits(117, 216);
    } else if j == 24 {
        lemma_xor_by_digits(0, 193);
    }
}

proof fn lemma_degree_26(j: int)
    requires
        0 <= j < 26,
    ensures
        coefficient(26, j) == coefficient(25, j) ^ times_alpha_pow(coefficient(25, j - 1), 25),
{
    lemma_tables_revealed();
    if j == 0 {
        lemma_xor_by_digits(245, 3);
    } else if j == 1 {
        lemma_xor_by_digits(49, 2);
    } else if j == 2 {
        lemma_xor_by_digits(228, 83);
    } else if j == 3 {
        lemma_xor_by_digits(53, 49);
    } else if j == 4 {
        lemma_xor_by_digits(215, 95);
    } else if j == 5 {
        lemma_xor_by_digits(6, 100);
    } else if j == 6 {
        lemma_xor_by_digits(205, 10);
    } else if j == 7 {
        lemma_xor_by_digits(210, 74);
    } else if j == 8 {
        lemma_xor_by_digits(38, 107);
    } else if j == 9 {
        lemma_xor_by_digits(82, 106);
    } else if j == 10 {
        lemma_xor_by_digits(56, 246);
    } else if j == 11 {
        lemma_xor_by_digits(80, 72);
    } else if j == 12 {
        lemma_xor_by_digits(97, 240);
    } else if j == 13 {
        lemma_xor_by_digits(139, 163);
    } else if j == 14 {
        lemma_xor_by_digits(81, 128);
    } else if j == 15 {
        lemma_xor_by_digits(134, 243);
    } else if j == 16 {
        lemma_xor_by_digits(126, 151);
    } else if j == 17 {
        lemma_xor_by_digits(168, 130);
    } else if j == 18 {
        lemma_xor_by_digits(98, 229);
    } else if j == 19 {
        lemma_xor_by_digits(226, 166);
    } else if j == 20 {
        lemma_xor_by_digits(125, 59);
    } else if j == 21 {
        lemma_xor_by_digits(23, 135);
    } else if j == 22 {
        lemma_xor_by_digits(171, 57);
    } else if j == 23 {
        lemma_xor_by_digits(173, 224);
    } else if j == 24 {
        lemma_xor_by_digits(193, 234);
    } else if j == 25 {
        lemma_xor_by_digits(0, 94);
    }
}

proof fn lemma_degree_27(j: int)
    requires
        0 <= j < 27,
    ensures
        coefficient(27, j) == coefficient(26, j) ^ times_alpha_pow(coefficient(26, j - 1), 26),
{
    lemma_tables_revealed();
    if j == 0 {
        lemma_xor_by_digits(246, 6);
    } else if j == 1 {
        lemma_xor_by_digits(51, 14);
    } else if j == 2 {
        lemma_xor_by_digits(183, 170);
    } else if j == 3 {
        lemma_xor_by_digits(4, 149);
    } else if j == 4 {
        lemma_xor_by_digits(136, 24);
    } else if j == 5 {
        lemma_xor_by_digits(98, 23);
    } else if j == 6 {
        lemma_xor_by_digits(199, 81);
    } else if j == 7 {
        lemma_xor_by_digits(152, 168);
    } else if j == 8 {
        lemma_xor_by_digits(77, 119);
    } else if j == 9 {
        lemma_xor_by_digits(56, 179);
    } else if j == 10 {
        lemma_xor_by_digits(206, 144);
    } else if j == 11 {
        lemma_xor_by_digits(24, 158);
    } else if j == 12 {
        lemma_xor_by_digits(145, 80);
    } else if j == 13 {
        lemma_xor_by_digits(40, 65);
    } else if j == 14 {
        lemma_xor_by_digits(209, 240);
    } else if j == 15 {
        lemma_xor_by_digits(117, 220);
    } else if j == 16 {
        lemma_xor_by_digits(233, 35);
    } else if j == 17 {
        lemma_xor_by_digits(42, 76);
    } else if j == 18 {
        lemma_xor_by_digits(135, 252);
    } else if j == 19 {
        lemma_xor_by_digits(68, 53);
    } else if j == 20 {
        lemma_xor_by_digits(70, 133);
    } else if j == 21 {
        lemma_xor_by_digits(144, 137);
    } else if j == 22 {
        lemma_xor_by_digits(146, 71);
    } else if j == 23 {
        lemma_xor_by_digits(77, 75);
    } else if j == 24 {
        lemma_xor_by_digits(43, 179);
    } else if j == 25 {
        lemma_xor_by_digits(94, 250);
    } else if j == 26 {
        lemma_xor_by_digits(0, 217);
    }
}

proof fn lemma_degree_28(j: int)
    requires
        0 <= j < 28,
    ensures
        coefficient(28, j) == coefficient(27, j) ^ times_alpha_pow(coefficient(27, j - 1), 27),
{
    lemma_tables_revealed();
    if j == 0 {
        lemma_xor_by_digits(240, 12);
    } else if j == 1 {
        lemma_xor_by_digits(61, 52);
    } else if j == 2 {
        lemma_xor_by_digits(29, 1);
    } else if j == 3 {
        lemma_xor_by_digits(145, 156);
    } else if j == 4 {
        lemma_xor_by_digits(144, 130);
    } else if j == 5 {
        lemma_xor_by_digits(117, 142);
    } else if j == 6 {
        lemma_xor_by_digits(150, 70);
    } else if j == 7 {
        lemma_xor_by_digits(48, 166);
    } else if j == 8 {
        lemma_xor_by_digits(58, 93);
    } else if j == 9 {
        lemma_xor_by_digits(139, 37);
    } else if j == 10 {
        lemma_xor_by_digits(94, 58);
    } else if j == 11 {
        lemma_xor_by_digits(134, 175);
    } else if j == 12 {
        lemma_xor_by_digits(193, 102);
    } else if j == 13 {
        lemma_xor_by_digits(105, 101);
    } else if j == 14 {
        lemma_xor_by_digits(33, 214);
    } else if j == 15 {
        lemma_xor_by_digits(169, 145);
    } else if j == 16 {
        lemma_xor_by_digits(202, 191);
    } else if j == 17 {
        lemma_xor_by_digits(102, 17);
    } else if j == 18 {
        lemma_xor_by_digits(123, 146);
    } else if j == 19 {
        lemma_xor_by_digits(113, 14);
    } else if j == 20 {
        lemma_xor_by_digits(195, 118);
    } else if j == 21 {
        lemma_xor_by_digits(25, 125);
    } else if j == 22 {
        lemma_xor_by_digits(213, 172);
    } else if j == 23 {
        lemma_xor_by_digits(6, 149);
    } else if j == 24 {
        lemma_xor_by_digits(152, 40);
    } else if j == 25 {
        lemma_xor_by_digits(164, 238);
    } else if j == 26 {
        lemma_xor_by_digits(217, 227);
    } else if j == 27 {
        lemma_xor_by_digits(0, 197);
    }
}

proof fn lemma_degree_29(j: int)
    requires
        0 <= j < 29,
    ensures
        coefficient(29, j) == coefficient(28, j) ^ times_alpha_pow(coefficient(28, j - 1), 28),
{
    lemma_tables_revealed();
    if j == 0 {
        lemma_xor_by_digits(252, 24);
    } else if j == 1 {
        lemma_xor_by_digits(9, 200);
    } else if j == 2 {
        lemma_xor_by_digits(28, 216);
    } else if j == 3 {
        lemma_xor_by_digits(13, 61);
    } else if j == 4 {
        lemma_xor_by_digits(18, 184);
    } else if j == 5 {
        lemma_xor_by_digits(251, 173);
    } else if j == 6 {
        lemma_xor_by_digits(208, 128);
    } else if j == 7 {
        lemma_xor_by_digits(150, 79);
    } else if j == 8 {
        lemma_xor_by_digits(103, 81);
    } else if j == 9 {
        lemma_xor_by_digits(174, 33);
    } else if j == 10 {
        lemma_xor_by_digits(100, 43);
    } else if j == 11 {
        lemma_xor_by_digits(41, 9);
    } else if j == 12 {
        lemma_xor_by_digits(167, 255);
    } else if j == 13 {
        lemma_xor_by_digits(12, 243);
    } else if j == 14 {
        lemma_xor_by_digits(247, 160);
    } else if j == 15 {
        lemma_xor_by_digits(56, 32);
    } else if j == 16 {
        lemma_xor_by_digits(117, 122);
    } else if j == 17 {
        lemma_xor_by_digits(119, 140);
    } else if j == 18 {
        lemma_xor_by_digits(233, 188);
    } else if j == 19 {
        lemma_xor_by_digits(127, 45);
    } else if j == 20 {
        lemma_xor_by_digits(181, 124);
    } else if j == 21 {
        lemma_xor_by_digits(100, 94);
    } else if j == 22 {
        lemma_xor_by_digits(121, 9);
    } else if j == 23 {
        lemma_xor_by_digits(147, 44);
    } else if j == 24 {
        lemma_xor_by_digits(176, 41);
    } else if j == 25 {
        lemma_xor_by_digits(74, 38);
    } else if j == 26 {
        lemma_xor_by_digits(58, 190);
    } else if j == 27 {
        lemma_xor_by_digits(197, 74);
    } else if j == 28 {
        lemma_xor_by_digits(0, 170);
    }
}

proof fn lemma_degree_30(j: int)
    requires
        0 <= j < 30,
    ensures
        coefficient(30, j) == coefficient(29, j) ^ times_alpha_pow(coefficient(29, j - 1), 29),
{
    lemma_tables_revealed();
    if j == 0 {
        lemma_xor_by_digits(228, 48);
    } else if j == 1 {
        lemma_xor_by_digits(193, 55);
    } else if j == 2 {
        lemma_xor_by_digits(196, 137);
    } else if j == 3 {
        lemma_xor_by_digits(48, 121);
    } else if j == 4 {
        lemma_xor_by_digits(170, 105);
    } else if j == 5 {
        lemma_xor_by_digits(86, 150);
    } else if j == 6 {
        lemma_xor_by_digits(80, 27);
    } else if j == 7 {
        lemma_xor_by_digits(217, 187);
    } else if j == 8 {
        lemma_xor_by_digits(54, 51);
    } else if j == 9 {
        lemma_xor_by_digits(143, 201);
    } else if j == 10 {
        lemma_xor_by_digits(79, 40);
    } else if j == 11 {
        lemma_xor_by_digits(32, 145);
    } else if j == 12 {
        lemma_xor_by_digits(88, 78);
    } else if j == 13 {
        lemma_xor_by_digits(255, 38);
    } else if j == 14 {
        lemma_xor_by_digits(87, 221);
    } else if j == 15 {
        lemma_xor_by_digits(24, 43);
    } else if j == 16 {
        lemma_xor_by_digits(15, 186);
    } else if j == 17 {
        lemma_xor_by_digits(251, 13);
    } else if j == 18 {
        lemma_xor_by_digits(85, 29);
    } else if j == 19 {
        lemma_xor_by_digits(82, 75);
    } else if j == 20 {
        lemma_xor_by_digits(201, 219);
    } else if j == 21 {
        lemma_xor_by_digits(58, 20);
    } else if j == 22 {
        lemma_xor_by_digits(112, 148);
    } else if j == 23 {
        lemma_xor_by_digits(191, 245);
    } else if j == 24 {
        lemma_xor_by_digits(153, 65);
    } else if j == 25 {
        lemma_xor_by_digits(108, 175);
    } else if j == 26 {
        lemma_xor_by_digits(132, 143);
    } else if j == 27 {
        lemma_xor_by_digits(143, 229);
    } else if j == 28 {
        lemma_xor_by_digits(170, 40);
    } else if j == 29 {
        lemma_xor_by_digits(0, 150);
    }
}

/// The generator polynomial of a degree is that of the degree below times
/// the polynomial x + a, where a is the power of the generator of the field
/// whose exponent is the degree below: each coefficient is the sum of the
/// coefficient of the same place and of a times the coefficient one place
/// higher of the polynomial of the degree below. So the generator
/// polynomial of degree `d` is the product of x + a over the first `d`
/// powers a of the generator of the field.
pub proof fn lemma_generator_recurrence(degree: int, j: int)
    requires
        1 <= degree <= 30,
        0 <= j < degree,
    ensures
        coefficient(degree, j) == coefficient(degree - 1, j) ^ times_alpha_pow(
            coefficient(degree - 1, j - 1),
            (degree - 1) as u8,
        ),
{
    if degree == 1 {
        lemma_degree_1(j);
    } else if degree == 2 {
        lemma_degree_2(j);
    } else if degree == 3 {
        lemma_degree_3(j);
    } else if degree == 4 {
        lemma_degree_4(j);
    } else if degree == 5 {
        lemma_degree_5(j);
    } else if degree == 6 {
        lemma_degree_6(j);
    } else if degree == 7 {
        lemma_degree_7(j);
    } else if degree == 8 {
        lemma_degree_8(j);
    } else if degree == 9 {
        lemma_degree_9(j);
    } else if degree == 10 {
        lemma_degree_10(j);
    } else if degree == 11 {
        lemma_degree_11(j);
    } else if degree == 12 {
        lemma_degree_12(j);
    } else if degree == 13 {
        lemma_degree_13(j);
    } else if degree == 14 {
        lemma_degree_14(j);
    } else if degree == 15 {
        lemma_degree_15(j);
    } else if degree == 16 {
        lemma_degree_16(j);
    } else if degree == 17 {
        lemma_degree_17(j);
    } else if degree == 18 {
        lemma_degree_18(j);
    } else if degree == 19 {
        lemma_degree_19(j);
    } else if degree == 20 {
        lemma_degree_20(j);
    } else if degree == 21 {
        lemma_degree_21(j);
    } else if degree == 22 {
        lemma_degree_22(j);
    } else if degree == 23 {
        lemma_degree_23(j);
    } else if degree == 24 {
        lemma_degree_24(j);
    } else if degree == 25 {
        lemma_degree_25(j);
    } else if degree == 26 {
        lemma_degree_26(j);
    } else if degree == 27 {
        lemma_degree_27(j);
    } else if degree == 28 {
        lemma_degree_28(j);
    } else if degree == 29 {
        lemma_degree_29(j);
    } else if degree == 30 {
        lemma_degree_30(j);
    }
}


/// The product of the polynomial `p`, given by its coefficients from the
/// leading one down, and the polynomial x + a, where a is the power of the
/// generator of the field with the exponent `e`.
pub open spec fn times_linear(p: Seq<u8>, e: u8) -> Seq<u8> {
    Seq::new(
        p.len() + 1,
        |j: int|
            (if j < p.len() {
                p[j]
            } else {
                0u8
            }) ^ (if j > 0 {
                times_alpha_pow(p[j - 1], e)
            } else {
                0u8
            }),
    )
}

/// The product of the polynomials x + a over the first `degree` powers a
/// of the generator of the field, by its coefficients from the leading one
/// down.
pub open spec fn root_product(degree: nat) -> Seq<u8>
    decreases degree,
{
    if degree == 0 {
        seq![1u8]
    } else {
        times_linear(root_product((degree - 1) as nat), (degree - 1) as u8)
    }
}

/// The generator polynomial of a degree is the product of the polynomials
/// x + a over the first powers a of the generator of the field, as many as
/// the degree says: its roots are those powers.
pub proof fn lemma_generator_is_root_product(degree: nat)
    requires
        degree <= 30,
    ensures
        root_product(degree).len() == degree + 1,
        forall|j: int|
            0 <= j <= degree ==> #[trigger] root_product(degree)[j] == coefficient(
                degree as int,
                j - 1,
            ),
    decreases degree,
{
    if degree > 0 {
        let below = (degree - 1) as nat;
        lemma_generator_is_root_product(below);
        let p = root_product(below);
        assert forall|j: int| 0 <= j <= degree implies #[trigger] root_product(degree)[j]
            == coefficient(degree as int, j - 1) by {
            if j == 0 {
                lemma_xor_zero(1u8);
                assert(p[0] == coefficient(below as int, -1));
            } else {
                lemma_generator_recurrence(degree as int, j - 1);
                assert(p[j - 1] == coefficient(below as int, j - 2));
                if j < p.len() {
                    assert(p[j] == coefficient(below as int, j - 1));
                }
            }
        }
    }
}

} // verus!
