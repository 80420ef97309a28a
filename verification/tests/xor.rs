use httpkv::xor_ec::{calculate_ec_block, pad_string, reconstruct_block, split_into_blocks};

#[test]
fn test_pad_string() {
    let padded = pad_string(&b"Hello, this is a test string!".to_vec());
    assert_eq!(padded.len(), 32);
    assert_eq!(&padded[..29], b"Hello, this is a test string!");
    assert_eq!(&padded[29..], &[0, 0, 0]);
    // already a multiple of four: nothing appended
    let exact = pad_string(&b"abcd".to_vec());
    assert_eq!(exact, b"abcd".to_vec());
}

#[test]
fn test_split_into_blocks() {
    let blocks = split_into_blocks(&b"abcdefgh".to_vec());
    assert_eq!(blocks.len(), 4);
    assert_eq!(blocks[0], b"ab".to_vec());
    assert_eq!(blocks[1], b"cd".to_vec());
    assert_eq!(blocks[2], b"ef".to_vec());
    assert_eq!(blocks[3], b"gh".to_vec());
}

#[test]
fn test_parity_value() {
    let blocks = vec![vec![0x01u8, 0x02], vec![0x03, 0x04]];
    let parity = calculate_ec_block(&blocks);
    assert_eq!(parity, vec![0x02, 0x06]);
}

#[test]
fn test_reconstruct_round_trip() {
    let padded = pad_string(&b"Hello, this is a test string!".to_vec());
    let blocks = split_into_blocks(&padded);
    let ec_block = calculate_ec_block(&blocks);
    let reconstructed = reconstruct_block(&blocks[0..3], &ec_block);
    assert_eq!(reconstructed, blocks[3]);
}
