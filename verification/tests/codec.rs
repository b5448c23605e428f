use hamming::armor::{decode_base64, encode_base64, fits_base64, ArmorError};
use hamming::codec::{decode, encode};

#[test]
fn encode_gives_the_wire_bytes() {
    assert_eq!(
        encode(b"some bytes"),
        vec![39, 27, 103, 219, 69, 202, 44, 6, 42, 60, 123, 209, 81, 46, 102, 0]
    );
    assert_eq!(encode(&[0xff, 0xff]), vec![0x7f, 0xff, 0x3f, 0xc0]);
}

#[test]
fn decode_reads_the_wire_bytes() {
    let wire = [39, 27, 103, 219, 69, 202, 44, 6, 42, 60, 123, 209, 81, 46, 102, 0];
    assert_eq!(decode(&wire), "some bytes");
}

#[test]
fn decode_after_encode_gives_the_message_back() {
    for message in ["a", "ab", "some bytes", "The quick brown fox jumps over the lazy dog."] {
        assert_eq!(decode(&encode(message.as_bytes())), message);
    }
}

#[test]
fn decode_after_encode_of_every_length() {
    for len in 0usize..40 {
        let message: Vec<u8> = (0..len).map(|i| b'A' + (i % 26) as u8).collect();
        let text = decode(&encode(&message));
        assert_eq!(text.as_bytes(), message.as_slice());
    }
}

#[test]
fn decode_after_encode_drops_zero_bytes() {
    assert_eq!(decode(&encode(b"a\0b\0")), "ab");
}

#[test]
fn encode_and_decode_of_nothing_give_nothing() {
    assert_eq!(encode(&[]), Vec::<u8>::new());
    assert_eq!(decode(&[]), "");
}

#[test]
fn decode_corrects_one_flipped_bit_in_each_codeword() {
    let mut wire = encode(b"some bytes");
    for (index, byte) in wire.iter_mut().enumerate() {
        if index % 2 == 1 {
            *byte ^= 1 << (index % 8);
        }
    }
    assert_eq!(decode(&wire), "some bytes");
}

#[test]
fn decode_tolerates_a_truncated_last_codeword() {
    let wire = encode(b"ab");
    // the last byte of the wire is lost: the codeword is read with zeros there
    let text = decode(&wire[..wire.len() - 1]);
    assert_eq!(text.chars().next(), Some('a'));
}

#[test]
fn encode_base64_gives_the_wire_bytes_as_text() {
    assert_eq!(encode_base64(b"some bytes"), "Jxtn20XKLAYqPHvRUS5mAA==");
    assert_eq!(encode_base64(b"a"), "bog=");
    assert_eq!(encode_base64(b""), "");
}

#[test]
fn decode_base64_reads_the_text() {
    assert_eq!(decode_base64(b"Jxtn20XKLAYqPHvRUS5mAA=="), Ok(String::from("some bytes")));
    assert_eq!(decode_base64(b"bog="), Ok(String::from("a")));
    assert_eq!(decode_base64(b""), Ok(String::new()));
}

#[test]
fn decode_base64_after_encode_base64() {
    let text = encode_base64(b"across a text channel");
    assert_ne!(text.as_bytes(), encode(b"across a text channel").as_slice());
    assert_eq!(decode_base64(text.as_bytes()), Ok(String::from("across a text channel")));
}

#[test]
fn decode_base64_rejects_a_byte_outside_the_alphabet() {
    assert_eq!(
        decode_base64(b"Jx#n"),
        Err(ArmorError::InvalidByte { offset: 2, byte: b'#' })
    );
}

#[test]
fn decode_base64_rejects_an_impossible_length() {
    assert_eq!(decode_base64(b"Jxtn2"), Err(ArmorError::InvalidLength));
}

#[test]
fn decode_base64_rejects_a_last_symbol_with_stray_bits() {
    assert_eq!(
        decode_base64(b"bon="),
        Err(ArmorError::InvalidLastSymbol { offset: 2, byte: b'n' })
    );
}

#[test]
fn fits_base64_holds_for_every_buffer_that_memory_can_hold() {
    assert!(fits_base64(0));
    assert!(fits_base64(10));
    assert!(fits_base64(1 << 20));
    assert!(fits_base64(usize::MAX / 8));
    assert!(!fits_base64(usize::MAX));
    assert!(!fits_base64(usize::MAX / 2));
}
