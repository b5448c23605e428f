use hamming::bitvec::BitVec;
use hamming::bytes::bytes_from_bits;

#[test]
fn from_bytes_converts_to_vec_of_bools() {
    let mut bitvec = BitVec::from_bytes("a".as_bytes());

    // a = 01100001
    let expected = [false, true, true, false, false, false, false, true];
    for expected_bit in expected.iter() {
        assert_eq!(*expected_bit, bitvec.next().unwrap())
    }
}

#[test]
fn iterator_iterates_correct_amount() {
    let mut bitvec = BitVec::from_bytes(&[255, 255, 255]);

    // we can iterate 3 * 8 = 24 times and fully exhaust the iterator
    for _ in 0..(3 * 8) {
        assert!(bitvec.peek().is_some());
        assert!(bitvec.next().is_some());
    }

    // but then we're at the end
    assert_eq!(bitvec.next(), None);
}

#[test]
fn len_counts_bytes_not_bits() {
    assert_eq!(BitVec::from_bytes(&[1, 2, 3]).len(), 3);
    assert_eq!(BitVec::from_bytes(&[]).len(), 0);
}

#[test]
fn empty_stream_is_exhausted_at_once() {
    let mut bitvec = BitVec::from_bytes(&[]);
    assert_eq!(bitvec.peek(), None);
    assert_eq!(bitvec.next(), None);
    assert_eq!(bitvec.next(), None);
}

#[test]
fn peek_does_not_consume() {
    let mut bitvec = BitVec::from_bytes(&[0b1000_0000]);
    assert_eq!(bitvec.peek(), Some(true));
    assert_eq!(bitvec.peek(), Some(true));
    assert_eq!(bitvec.next(), Some(true));
    assert_eq!(bitvec.peek(), Some(false));
}

#[test]
fn bits_come_most_significant_first_across_bytes() {
    let mut bitvec = BitVec::from_bytes(&[0b1010_0000, 0b0000_0001]);
    let mut bits = Vec::new();
    while let Some(bit) = bitvec.next() {
        bits.push(bit);
    }
    let mut expected = vec![false; 16];
    expected[0] = true;
    expected[2] = true;
    expected[15] = true;
    assert_eq!(bits, expected);
}

#[test]
fn exhausted_stream_stays_exhausted() {
    let mut bitvec = BitVec::from_bytes(&[0]);
    for _ in 0..8 {
        assert_eq!(bitvec.next(), Some(false));
    }
    for _ in 0..3 {
        assert_eq!(bitvec.peek(), None);
        assert_eq!(bitvec.next(), None);
    }
}

#[test]
fn bytes_from_bits_pads_last_group_with_zeros() {
    let bits = [true, false, true, false, false, false, false, true, true, true];
    assert_eq!(bytes_from_bits(&bits, true), vec![0b1010_0001, 0b1100_0000]);
}

#[test]
fn bytes_from_bits_drops_last_partial_group() {
    let bits = [true, false, true, false, false, false, false, true, true, true];
    assert_eq!(bytes_from_bits(&bits, false), vec![0b1010_0001]);
}

#[test]
fn bytes_from_bits_of_whole_groups_is_the_same_either_way() {
    let bits = [false, true, true, false, false, false, false, true];
    assert_eq!(bytes_from_bits(&bits, true), vec![0x61]);
    assert_eq!(bytes_from_bits(&bits, false), vec![0x61]);
    assert_eq!(bytes_from_bits(&[], true), Vec::<u8>::new());
    assert_eq!(bytes_from_bits(&[], false), Vec::<u8>::new());
}

#[test]
fn bytes_from_bits_of_fewer_than_eight_bits() {
    assert_eq!(bytes_from_bits(&[true], true), vec![0x80]);
    assert_eq!(bytes_from_bits(&[true], false), Vec::<u8>::new());
}
