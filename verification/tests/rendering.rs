use hamming_blocks::encode_bits;
use hamming_blocks::Bit;
use hamming_blocks::Block;

#[test]
fn glyphs_are_digits() {
    assert_eq!(Bit::One.glyph(), "1");
    assert_eq!(Bit::Zero.glyph(), "0");
}

#[test]
fn renders_all_zero_grid() {
    let block = Block { bits: vec![Bit::Zero; 4], width: 2 };
    assert_eq!(block.render(), "0 0 \n0 0 \n");
}

#[test]
fn renders_row_major_grid() {
    let block = Block { bits: vec![Bit::One, Bit::Zero, Bit::One, Bit::One], width: 2 };
    assert_eq!(block.render(), "1 0 \n1 1 \n");
}

#[test]
fn renders_missing_positions_as_zero() {
    // a renderer given a mismatched width reads past the stored bits:
    // those positions render as zero
    let block = Block { bits: vec![Bit::One], width: 2 };
    assert_eq!(block.render(), "1 0 \n0 0 \n");
}

#[test]
fn renders_encoded_block() {
    // width 2, input [1]: the encoded block is all One
    let blocks = encode_bits(vec![Bit::One], 2).unwrap();
    assert_eq!(blocks[0].render(), "1 1 \n1 1 \n");
}
