use hamming::block::Block;
use hamming::label::mask_of;
use hamming::blocks::Blocks;

fn words(blocks: &Blocks) -> Vec<u16> {
    blocks.iter().map(|block| block.data).collect()
}

#[test]
fn new_passed_bytes_returns_blocks_leaving_space_for_parity() {
    let data = [0xff, 0xff, 0xff, 0xff];
    let blocks = Blocks::new(&data, false);

    assert_eq!(blocks.iter().as_slice().len(), 3);
}

#[test]
fn new_passed_bytes_and_raw_leaves_bits_untouched() {
    let data = [0xff, 0xff, 0xff, 0xff];
    let blocks = Blocks::new(&data, true);

    assert_eq!(blocks.iter().as_slice().len(), 2);
}

#[test]
fn to_string_returns_stringified_version_of_original_input() {
    let data = "some bytes";
    let blocks = Blocks::new(data.as_bytes(), false);

    assert_eq!(blocks.to_string(), data);
}

#[test]
fn to_byte_vec_returns_raw_vec_of_u8() {
    let data = [0xff, 0xff];
    let blocks = Blocks::new(&data, true);

    assert_eq!(blocks.to_byte_vec(), vec![0xff, 0xff])
}

#[test]
fn to_byte_vec_returns_prepared_vec_of_u8() {
    let data = [0xff, 0xff];
    let blocks = Blocks::new(&data, false);

    assert_eq!(blocks.to_byte_vec(), vec![0x7f, 0xff, 0x3f, 0xc0])
}

#[test]
fn back_to_back() {
    // encode
    let data = "some bytes";
    let blocks = Blocks::new(data.as_bytes(), false);
    let raw_bytes = blocks.to_byte_vec();

    // decode
    let decode_blocks = Blocks::new(raw_bytes.as_slice(), true);
    assert_eq!(decode_blocks.to_string(), data);
}

#[test]
fn fresh_text_of_ten_bytes_fills_eight_codewords() {
    let blocks = Blocks::new("some bytes".as_bytes(), false);
    assert_eq!(blocks.iter().as_slice().len(), 8);
    assert_eq!(
        words(&blocks),
        vec![0x271b, 0x67db, 0x45ca, 0x2c06, 0x2a3c, 0x7bd1, 0x512e, 0x6600]
    );
}

#[test]
fn raw_two_bytes_fill_one_codeword_and_come_back_unchanged() {
    let blocks = Blocks::new(&[0xff, 0xff], true);
    assert_eq!(words(&blocks), vec![0xffff]);
    assert_eq!(blocks.to_byte_vec(), vec![0xff, 0xff]);
}

#[test]
fn fresh_two_bytes_differ_on_the_wire_and_come_back_as_text() {
    let data = [0xff, 0xff];
    let wire = Blocks::new(&data, false).to_byte_vec();
    assert_ne!(wire, data.to_vec());

    let text = Blocks::new(&wire, true).to_string();
    let chars: Vec<char> = text.chars().collect();
    assert_eq!(chars, vec!['\u{ff}', '\u{ff}']);
}

#[test]
fn block_count_is_the_rounded_up_quotient() {
    for len in 0usize..64 {
        let data = vec![0xa5u8; len];
        let fresh = Blocks::new(&data, false);
        let raw = Blocks::new(&data, true);
        assert_eq!(fresh.iter().as_slice().len(), (8 * len + 10) / 11);
        assert_eq!(raw.iter().as_slice().len(), (8 * len + 15) / 16);
    }
}

#[test]
fn empty_input_gives_no_codewords_and_empty_output() {
    for is_raw in [false, true] {
        let blocks = Blocks::new(&[], is_raw);
        assert_eq!(blocks.iter().as_slice().len(), 0);
        assert_eq!(blocks.to_byte_vec(), Vec::<u8>::new());
        assert_eq!(blocks.to_string(), "");
        assert_eq!(blocks.serialize(false), Vec::<bool>::new());
        assert_eq!(blocks.serialize(true), Vec::<bool>::new());
    }
}

#[test]
fn fresh_codewords_are_prepared() {
    let blocks = Blocks::new(b"The quick brown fox", false);
    for block in blocks.iter() {
        assert_eq!(block.parity(), 0);
        assert_eq!(block.data & 0x8000, 0);
    }
}

#[test]
fn fresh_partial_last_codeword_is_zero_filled() {
    // eight bits 0110_0001 at the payload labels 3, 5, 6, 7, 9, 10, 11, 12
    let blocks = Blocks::new(b"a", false);
    assert_eq!(words(&blocks), vec![0x6e88]);
    assert_eq!(words(&blocks)[0] & 0x177f, 0x0608);
}

#[test]
fn raw_truncated_input_is_zero_filled() {
    let blocks = Blocks::new(&[0xab, 0xcd, 0xef], true);
    assert_eq!(words(&blocks), vec![0xabcd, 0xef00]);
    assert_eq!(blocks.to_byte_vec(), vec![0xab, 0xcd, 0xef, 0x00]);
}

#[test]
fn raw_keeps_unsound_codewords_as_they_are() {
    let blocks = Blocks::new(&[0x40, 0x00], true);
    assert_eq!(words(&blocks), vec![0x4000]);
    assert_eq!(blocks.iter().as_slice()[0].parity(), 1);
}

#[test]
fn serialize_gives_all_bits_or_payload_bits() {
    let blocks = Blocks::new(&[0x7f, 0xff, 0x3f, 0xc0], true);
    let all = blocks.serialize(false);
    assert_eq!(all.len(), 32);
    let expected: Vec<bool> = [0x7fu8, 0xff, 0x3f, 0xc0]
        .iter()
        .flat_map(|byte| (0..8).map(move |bit| byte >> (7 - bit) & 1 == 1))
        .collect();
    assert_eq!(all, expected);

    let payload = blocks.serialize(true);
    assert_eq!(payload.len(), 22);
    let mut expected = vec![true; 16];
    expected.extend(vec![false; 6]);
    assert_eq!(payload, expected);
}

#[test]
fn to_byte_vec_is_two_bytes_per_codeword() {
    let blocks = Blocks::new(b"some bytes", false);
    assert_eq!(
        blocks.to_byte_vec(),
        vec![39, 27, 103, 219, 69, 202, 44, 6, 42, 60, 123, 209, 81, 46, 102, 0]
    );
}

#[test]
fn to_string_drops_zero_bytes() {
    let blocks = Blocks::new(b"a\0b", false);
    assert_eq!(blocks.to_string(), "ab");
}

#[test]
fn to_string_drops_the_trailing_partial_byte() {
    // one codeword carries eleven payload bits: one whole byte and three bits over
    let blocks = Blocks::new(&[0x7f, 0xff], true);
    assert_eq!(blocks.serialize(true).len(), 11);
    let chars: Vec<char> = blocks.to_string().chars().collect();
    assert_eq!(chars, vec!['\u{ff}']);
}

#[test]
fn to_byte_vec_and_to_string_leave_the_codewords_alone() {
    let blocks = Blocks::new(b"twice", false);
    let first = (blocks.to_byte_vec(), blocks.to_string());
    let second = (blocks.to_byte_vec(), blocks.to_string());
    assert_eq!(first, second);
}

#[test]
fn wire_bytes_read_raw_give_the_same_codewords() {
    let blocks = Blocks::new(b"round and round", false);
    let again = Blocks::new(&blocks.to_byte_vec(), true);
    assert_eq!(words(&again), words(&blocks));
}

#[test]
fn repair_corrects_one_flip_per_codeword() {
    let sound = Blocks::new(b"some bytes", false);
    let mut wire = sound.to_byte_vec();
    // one flipped bit in each codeword, never that of label 0
    for (index, pair) in wire.chunks_mut(2).enumerate() {
        let mask = mask_of((index % 15) as u8 + 1);
        pair[0] ^= (mask >> 8) as u8;
        pair[1] ^= (mask & 0xff) as u8;
    }
    let mut received = Blocks::new(&wire, true);
    assert_ne!(words(&received), words(&sound));
    received.repair();
    assert_eq!(words(&received), words(&sound));
    assert_eq!(received.to_string(), "some bytes");
}

#[test]
fn repair_leaves_sound_codewords_alone() {
    let mut blocks = Blocks::new(b"untouched", false);
    let before = words(&blocks);
    blocks.repair();
    assert_eq!(words(&blocks), before);
}

#[test]
fn repair_is_independent_per_codeword() {
    let mut blocks = Blocks::new(&[0x7f, 0xff, 0x7f, 0xfe, 0x40, 0x00], true);
    blocks.repair();
    // sound; label 15 flipped; label 1 set alone
    assert_eq!(words(&blocks), vec![0x7fff, 0x7fff, 0x0000]);
}

#[test]
fn introduce_noise_flips_at_most_one_bit_per_codeword() {
    for _ in 0..50 {
        let sound = Blocks::new(b"noise all around us", false);
        let mut noisy = Blocks::new(b"noise all around us", false);
        noisy.introduce_noise();
        assert_eq!(noisy.iter().as_slice().len(), sound.iter().as_slice().len());
        for (after, before) in noisy.iter().zip(sound.iter()) {
            let change = after.data ^ before.data;
            assert!(change.count_ones() <= 1);
            assert_eq!(change & 0x8000, 0);
        }
        noisy.repair();
        assert_eq!(words(&noisy), words(&sound));
        assert_eq!(noisy.to_string(), "noise all around us");
    }
}

#[test]
fn introduce_noise_changes_something_sooner_or_later() {
    let sound = Blocks::new(&[0x55u8; 110], false);
    let mut changed = false;
    for _ in 0..20 {
        let mut noisy = Blocks::new(&[0x55u8; 110], false);
        noisy.introduce_noise();
        changed = changed || words(&noisy) != words(&sound);
    }
    assert!(changed);
}

#[test]
fn from_str_packs_fresh() {
    let blocks = Blocks::from("some bytes");
    assert_eq!(words(&blocks), words(&Blocks::new(b"some bytes", false)));
}

#[test]
fn is_parity_bit_marks_labels_0_1_2_4_8() {
    let reserved: Vec<u8> = (0u8..16).filter(|label| Blocks::is_parity_bit(*label)).collect();
    assert_eq!(reserved, vec![0, 1, 2, 4, 8]);
}

#[test]
fn iter_walks_the_codewords_in_order() {
    let blocks = Blocks::new(&[0x00, 0x01, 0x00, 0x02, 0x00, 0x03], true);
    let seen: Vec<Block> = blocks.iter().copied().collect();
    assert_eq!(seen, vec![Block::from(1), Block::from(2), Block::from(3)]);
}

#[test]
fn apply_noise_flips_the_drawn_bit_of_each_codeword() {
    let mut blocks = Blocks::new(&[0x00, 0x00, 0x7f, 0xff, 0x12, 0x34], true);
    blocks.apply_noise(&[Some(0), None, Some(14)]);
    // draw 0 picks label 15, no draw leaves the codeword, draw 14 picks label 1
    assert_eq!(words(&blocks), vec![0x0001, 0x7fff, 0x1234 ^ 0x4000]);
}

#[test]
fn apply_noise_takes_draws_modulo_fifteen() {
    for draw in 0u8..=u8::MAX {
        let mut blocks = Blocks::new(&[0x00, 0x00], true);
        blocks.apply_noise(&[Some(draw)]);
        assert_eq!(words(&blocks), vec![mask_of(15 - draw % 15)]);
    }
}

#[test]
fn apply_noise_without_draws_changes_nothing() {
    let mut blocks = Blocks::new(b"quiet", false);
    let before = words(&blocks);
    blocks.apply_noise(&[]);
    assert_eq!(words(&blocks), before);
    blocks.apply_noise(&[None, None, None, None]);
    assert_eq!(words(&blocks), before);
}

#[test]
fn apply_noise_ignores_draws_beyond_the_codewords_and_spares_codewords_beyond_the_draws() {
    let mut blocks = Blocks::new(&[0x00, 0x00, 0x00, 0x00], true);
    blocks.apply_noise(&[Some(1)]);
    assert_eq!(words(&blocks), vec![0x0002, 0x0000]);

    let mut blocks = Blocks::new(&[0x00, 0x00], true);
    blocks.apply_noise(&[Some(2), Some(3), Some(4)]);
    assert_eq!(words(&blocks), vec![0x0004]);
}

#[test]
fn apply_noise_is_undone_by_repair() {
    let sound = Blocks::new(b"some bytes", false);
    let mut noisy = Blocks::new(b"some bytes", false);
    noisy.apply_noise(&[Some(0), Some(200), None, Some(14), Some(15), Some(7), None, Some(255)]);
    assert_ne!(words(&noisy), words(&sound));
    noisy.repair();
    assert_eq!(words(&noisy), words(&sound));
    assert_eq!(noisy.to_string(), "some bytes");
}
