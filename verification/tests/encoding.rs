use hamming_blocks::encode_bits;
use hamming_blocks::Bit;
use hamming_blocks::Block;
use hamming_blocks::EncodeError;

fn bits(xs: &[u8]) -> Vec<Bit> {
    xs.iter().map(|&x| if x == 1 { Bit::One } else { Bit::Zero }).collect()
}

fn is_parity_position(i: usize) -> bool {
    i == 0 || i.is_power_of_two()
}

fn data_positions(block: &Block) -> Vec<Bit> {
    let mut out = Vec::new();
    for (i, &b) in block.bits.iter().enumerate() {
        if !is_parity_position(i) {
            out.push(b);
        }
    }
    out
}

fn ones_where(block: &Block, pred: impl Fn(usize) -> bool) -> usize {
    block
        .bits
        .iter()
        .enumerate()
        .filter(|&(i, &b)| pred(i) && b == Bit::One)
        .count()
}

fn check_block_invariants(block: &Block) {
    let cap = block.width * block.width;
    assert_eq!(block.bits.len(), cap);
    // parity covering: for each parity position p, the One bits at indices
    // sharing bit p - the parity bit itself among them - are even in number
    let mut p = 1;
    while p < cap {
        assert_eq!(ones_where(block, |i| i & p != 0) % 2, 0, "parity position {}", p);
        p <<= 1;
    }
    // overall parity: an even number of One bits in the whole block
    assert_eq!(ones_where(block, |_| true) % 2, 0);
}

#[test]
fn sample_two_blocks() {
    // a 12-bit sample at width 4: 11 data positions per block
    let input = bits(&[0, 0, 0, 0, 1, 1, 1, 1, 0, 0, 0, 1]);
    let blocks = encode_bits(input, 4).unwrap();
    assert_eq!(blocks.len(), 2);
    for block in &blocks {
        assert_eq!(block.width, 4);
        check_block_invariants(block);
    }
    assert_eq!(data_positions(&blocks[0]), bits(&[0, 0, 0, 0, 1, 1, 1, 1, 0, 0, 0]));
    assert_eq!(data_positions(&blocks[1]), bits(&[1, 0, 0, 0, 0, 0, 0, 0, 0, 0, 0]));
}

#[test]
fn empty_input_yields_no_blocks() {
    let blocks = encode_bits(Vec::new(), 4).unwrap();
    assert_eq!(blocks.len(), 0);
}

#[test]
fn zero_input_yields_zero_blocks() {
    // encoding an all-zero input leaves every position Zero
    let blocks = encode_bits(bits(&[0; 15]), 4).unwrap();
    assert_eq!(blocks.len(), 2);
    for block in &blocks {
        check_block_invariants(block);
        for &b in &block.bits {
            assert_eq!(b, Bit::Zero);
        }
    }
}

#[test]
fn width_zero_rejected() {
    assert!(matches!(encode_bits(bits(&[1]), 0), Err(EncodeError::UnsupportedWidth)));
}

#[test]
fn width_one_rejected() {
    // width 1 has block capacity 1 whose single position is a parity
    // position, so there is no data capacity: it is refused as degenerate
    assert!(matches!(encode_bits(bits(&[1, 0]), 1), Err(EncodeError::UnsupportedWidth)));
}

#[test]
fn round_trip_width_three() {
    // width 3: capacity 9, parity positions 0, 1, 2, 4, 8, data positions
    // 3, 5, 6, 7 - four data bits per block
    let input = bits(&[1, 0, 1, 1, 0, 0, 1, 0, 1, 1]);
    let blocks = encode_bits(input.clone(), 3).unwrap();
    assert_eq!(blocks.len(), 3);
    let mut read_back = Vec::new();
    for block in &blocks {
        assert_eq!(block.width, 3);
        check_block_invariants(block);
        read_back.extend(data_positions(block));
    }
    assert_eq!(read_back.len(), 12);
    assert_eq!(&read_back[..10], &input[..]);
    assert_eq!(&read_back[10..], &bits(&[0, 0])[..]);
}

#[test]
fn block_count_is_input_ceil_data_capacity() {
    // width 4 has 11 data positions per block
    for (len, expected) in [(1, 1), (11, 1), (12, 2), (22, 2), (23, 3)] {
        let blocks = encode_bits(bits(&vec![1; len]), 4).unwrap();
        assert_eq!(blocks.len(), expected, "input length {}", len);
    }
}

#[test]
fn width_two_holds_one_data_bit_per_block() {
    // width 2: capacity 4, parity positions 0, 1, 2 - position 3 is the
    // only data position, so each input bit gets a block of its own
    let blocks = encode_bits(bits(&[1, 0, 1]), 2).unwrap();
    assert_eq!(blocks.len(), 3);
    assert_eq!(blocks[0].bits[3], Bit::One);
    assert_eq!(blocks[1].bits[3], Bit::Zero);
    assert_eq!(blocks[2].bits[3], Bit::One);
    for block in &blocks {
        check_block_invariants(block);
    }
}

#[test]
fn parity_invariants_hold_on_longer_input() {
    let input = bits(&[
        1, 1, 0, 1, 0, 0, 1, 1, 1, 0, 1, 0, 0, 1, 0, 1, 1, 1, 0, 0, 1, 0, 1, 1, 0, 1, 0, 0, 1, 1,
    ]);
    let blocks = encode_bits(input.clone(), 4).unwrap();
    assert_eq!(blocks.len(), 3);
    let mut read_back = Vec::new();
    for block in &blocks {
        check_block_invariants(block);
        read_back.extend(data_positions(block));
    }
    assert_eq!(&read_back[..30], &input[..]);
    for &b in &read_back[30..] {
        assert_eq!(b, Bit::Zero);
    }
}

#[test]
fn single_data_bit_sets_its_covering_parities() {
    // width 2, one set bit at data position 3: the XOR-fold is 3, so the
    // parity positions 1 and 2 are set, and the overall count 3 is odd, so
    // position 0 is set too
    let blocks = encode_bits(bits(&[1]), 2).unwrap();
    assert_eq!(blocks.len(), 1);
    assert_eq!(blocks[0].bits, bits(&[1, 1, 1, 1]));
}
