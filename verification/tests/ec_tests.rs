use qrgen::ec::{codewords, create_ec_for_block, error_correction, groups, interleave, EcLevel};
use qrgen::tables::field::{exp_entry, log_entry};
use qrgen::tables::polynomials::generator_polynomial;

#[test]
fn interleave_works_with_equal_length_blocks() {
    let blocks = vec![vec![1, 2, 3], vec![4, 5, 6], vec![7, 8, 9]];
    let result = interleave(blocks);
    assert_eq!(result, vec![1, 4, 7, 2, 5, 8, 3, 6, 9]);
}

#[test]
fn interleave_works_with_unequal_length_blocks() {
    let blocks = vec![vec![1, 2], vec![3, 4, 5], vec![6]];
    let result = interleave(blocks);
    assert_eq!(result, vec![1, 3, 6, 2, 4, 5]);
}

#[test]
fn interleave_works_with_empty_blocks() {
    let blocks: Vec<Vec<u8>> = vec![vec![], vec![], vec![]];
    let result = interleave(blocks);
    assert_eq!(result, vec![]);
}

#[test]
fn interleave_works_with_single_block() {
    let blocks = vec![vec![1, 2, 3]];
    let result = interleave(blocks);
    assert_eq!(result, vec![1, 2, 3]);
}

#[test]
fn create_ec_for_block_works_simple() {
    let block = vec![1, 2, 3];
    let ec_size = block.len();
    let generator_polynomial = generator_polynomial(ec_size);

    let ec = create_ec_for_block(block, ec_size, &generator_polynomial);
    assert!(ec.eq(&vec![92, 236, 176]));
}

#[test]
fn create_ec_for_block_works_complex() {
    let block = vec![32, 91, 11, 120, 209, 114, 220, 77, 67, 64, 236, 17, 236];
    let ec_size = block.len();
    let generator_polynomial = generator_polynomial(ec_size);

    let ec = create_ec_for_block(block, ec_size, &generator_polynomial);
    assert!(ec.eq(&vec![
        168, 72, 22, 82, 217, 54, 156, 0, 46, 15, 180, 122, 16
    ]));
}

#[test]
fn interleave_of_no_blocks_is_empty() {
    let blocks: Vec<Vec<u8>> = vec![];
    assert_eq!(interleave(blocks), Vec::<u8>::new());
}

#[test]
fn interleave_transposes_blocks_of_one_length() {
    let blocks = vec![vec![10, 11, 12, 13], vec![20, 21, 22, 23]];
    let result = interleave(blocks.clone());
    assert_eq!(result.len(), 8);
    for i in 0..4 {
        for b in 0..2 {
            assert_eq!(result[i * 2 + b], blocks[b][i]);
        }
    }
}

#[test]
fn create_ec_for_block_is_a_function_of_its_input() {
    let block = vec![64, 24, 172, 195, 0];
    let generator = generator_polynomial(10);
    let first = create_ec_for_block(block.clone(), 10, &generator);
    let second = create_ec_for_block(block, 10, &generator);
    assert_eq!(first, second);
    assert_eq!(first.len(), 10);
}

#[test]
fn create_ec_for_block_for_degree_ten() {
    let block = vec![32, 91, 11, 120, 209, 114, 220, 77, 67, 64, 236, 17, 236, 17, 236, 17];
    let generator = generator_polynomial(10);
    let ec = create_ec_for_block(block, 10, &generator);
    assert_eq!(ec, vec![196, 35, 39, 119, 235, 215, 231, 226, 93, 23]);
}

#[test]
fn create_ec_for_block_skips_leading_zeros() {
    let generator = generator_polynomial(7);
    assert_eq!(create_ec_for_block(vec![0, 0, 0], 7, &generator), vec![0; 7]);
    assert_eq!(create_ec_for_block(vec![], 7, &generator), vec![0; 7]);
    assert_eq!(
        create_ec_for_block(vec![0, 1], 7, &generator),
        create_ec_for_block(vec![1], 7, &generator)
    );
}

#[test]
fn create_ec_for_block_of_a_single_one_is_the_generator() {
    let generator = generator_polynomial(7);
    assert_eq!(generator, vec![87, 229, 146, 149, 238, 102, 21]);
    let ec = create_ec_for_block(vec![1], 7, &generator);
    let expected: Vec<u8> = generator.iter().map(|&g| exp_entry(g as usize)).collect();
    assert_eq!(ec, expected);
}

#[test]
fn generator_polynomial_has_as_many_coefficients_as_its_degree() {
    for degree in 0..=30 {
        assert_eq!(generator_polynomial(degree).len(), degree);
    }
    assert_eq!(generator_polynomial(1), vec![0]);
    assert_eq!(generator_polynomial(2), vec![25, 1]);
    assert_eq!(generator_polynomial(10), vec![251, 67, 46, 61, 118, 70, 64, 94, 32, 45]);
}

#[test]
fn exp_and_log_tables_invert_each_other() {
    for v in 1..=255u8 {
        assert_eq!(exp_entry(log_entry(v) as usize), v);
    }
    for e in 0..255usize {
        assert_eq!(log_entry(exp_entry(e)) as usize, e);
    }
    assert_eq!(log_entry(1), 0);
    assert_eq!(exp_entry(0), 1);
    assert_eq!(exp_entry(1), 2);
    assert_eq!(exp_entry(8), 29);
    assert_eq!(exp_entry(255), 1);
}

#[test]
fn exp_table_doubles_and_reduces() {
    for e in 0..255usize {
        let v = exp_entry(e) as u16;
        let doubled = if v < 128 { 2 * v } else { (2 * v - 256) ^ 0x1d };
        assert_eq!(exp_entry(e + 1) as u16, doubled);
    }
}

#[test]
fn ec_level_ordinals_follow_l_m_q_h() {
    assert_eq!(EcLevel::L.ordinal(), 0);
    assert_eq!(EcLevel::M.ordinal(), 1);
    assert_eq!(EcLevel::Q.ordinal(), 2);
    assert_eq!(EcLevel::H.ordinal(), 3);
}

#[test]
fn groups_of_a_single_block_version() {
    let data: Vec<u8> = (0..13).collect();
    let blocks = groups(&data, 1, &EcLevel::Q);
    assert_eq!(blocks, vec![data]);
}

#[test]
fn groups_of_a_version_with_two_groups() {
    // Version 5 at level Q: two blocks of 15 codewords, then two of 16.
    let data: Vec<u8> = (0..62).collect();
    let blocks = groups(&data, 5, &EcLevel::Q);
    assert_eq!(blocks.len(), 4);
    assert_eq!(blocks[0], (0..15).collect::<Vec<u8>>());
    assert_eq!(blocks[1], (15..30).collect::<Vec<u8>>());
    assert_eq!(blocks[2], (30..46).collect::<Vec<u8>>());
    assert_eq!(blocks[3], (46..62).collect::<Vec<u8>>());
}

#[test]
fn groups_of_a_short_run_cuts_by_the_first_block_size() {
    let data: Vec<u8> = (0..20).collect();
    let blocks = groups(&data, 5, &EcLevel::Q);
    assert_eq!(blocks, vec![(0..15).collect::<Vec<u8>>(), (15..20).collect::<Vec<u8>>()]);
    let none = groups(&Vec::new(), 5, &EcLevel::Q);
    assert!(none.is_empty());
}

#[test]
fn groups_drops_what_follows_the_first_group_when_there_is_no_second() {
    let data: Vec<u8> = (0..25).collect();
    let blocks = groups(&data, 1, &EcLevel::L);
    assert_eq!(blocks, vec![(0..19).collect::<Vec<u8>>()]);
}

#[test]
fn error_correction_of_a_single_block_symbol() {
    let data = vec![32, 91, 11, 120, 209, 114, 220, 77, 67, 64, 236, 17, 236];
    let ec = error_correction(&data, 1, &EcLevel::Q, 13);
    assert_eq!(ec, vec![168, 72, 22, 82, 217, 54, 156, 0, 46, 15, 180, 122, 16]);
}

#[test]
fn codewords_interleave_data_and_error_correction() {
    let data: Vec<u8> = (0..62).map(|v| (v * 7 + 3) as u8).collect();
    let (interleaved, ec) = codewords(&data, 5, &EcLevel::Q, 18);
    let blocks = groups(&data, 5, &EcLevel::Q);
    assert_eq!(interleaved, interleave(blocks.clone()));
    assert_eq!(interleaved.len(), 62);
    assert_eq!(&interleaved[..4], &[data[0], data[15], data[30], data[46]]);
    assert_eq!(&interleaved[60..], &[data[45], data[61]]);
    let generator = generator_polynomial(18);
    let per_block: Vec<Vec<u8>> = blocks
        .iter()
        .map(|block| create_ec_for_block(block.clone(), 18, &generator))
        .collect();
    assert_eq!(ec, interleave(per_block));
    assert_eq!(ec.len(), 72);
    assert_eq!(ec, error_correction(&data, 5, &EcLevel::Q, 18));
}

fn field_mul(a: u8, b: u8) -> u8 {
    if a == 0 || b == 0 {
        0
    } else {
        exp_entry((log_entry(a) as usize + log_entry(b) as usize) % 255)
    }
}

fn eval(coefficients: &[u8], at: u8) -> u8 {
    coefficients.iter().fold(0, |value, &c| field_mul(value, at) ^ c)
}

#[test]
fn block_with_its_error_correction_vanishes_at_the_roots_of_the_generator() {
    let blocks: [Vec<u8>; 3] = [
        vec![32, 91, 11, 120, 209, 114, 220, 77, 67, 64, 236, 17, 236],
        vec![0, 0, 1],
        (0..=255).collect(),
    ];
    for block in blocks {
        for degree in [1usize, 7, 13, 30] {
            let generator = generator_polynomial(degree);
            let ec = create_ec_for_block(block.clone(), degree, &generator);
            let mut codeword = block.clone();
            codeword.extend(&ec);
            for root in 0..degree {
                assert_eq!(eval(&codeword, exp_entry(root)), 0);
            }
            assert_ne!(eval(&codeword, exp_entry(degree)), 0);
        }
    }
}

#[test]
fn generator_polynomial_is_the_product_of_its_linear_factors() {
    let mut product: Vec<u8> = vec![1];
    for degree in 1..=30usize {
        let root = exp_entry(degree - 1);
        let mut next = vec![0u8; product.len() + 1];
        for (j, &c) in product.iter().enumerate() {
            next[j] ^= c;
            next[j + 1] ^= field_mul(c, root);
        }
        product = next;
        let logs: Vec<u8> = product[1..].iter().map(|&c| log_entry(c)).collect();
        assert_eq!(generator_polynomial(degree), logs);
        assert!(product.iter().all(|&c| c != 0));
    }
}
