use maze_game::base64::{decode, encode};
use maze_game::errors::CodecError;

#[test]
fn test_encode() {
    assert_eq!(encode(b"Hello"), "sgvSBg8");
}

#[test]
fn test_decode() {
    assert_eq!(decode("sgvSBg8").unwrap(), b"Hello");
}

#[test]
fn test_decode_invalid() {
    assert!(decode("SGVsbG@").is_err());
}

#[test]
fn test_all_case() {
    assert_eq!(encode(&[0]), "aa");
    assert_eq!(encode(&[25]), "gq");
    assert_eq!(encode(&[26]), "gG");
    assert_eq!(encode(&[51]), "mW");
    assert_eq!(encode(&[52]), "na");
    assert_eq!(encode(&[61]), "pq");
    assert_eq!(encode(&[62]), "pG");
    assert_eq!(encode(&[63]), "pW");
    assert_eq!(encode(b"Hello, World!"), "sgvSBg8SifDVCMXKiq");
    assert_eq!(encode(&(0..=255).collect::<Vec<u8>>()), "aaecaWqfbGCicqOlda0odXareHmufryxgbKAgXWDhH8GisiJjcuMjYGPkISSls4VmdeYmZq1nJC4otO7pd0+p0bbqKneruzhseLks0XntK9quvjtvfvwv1HzwLTCxv5FygfIy2rLzMDOAwPRBg1UB3bXCNn0Dxz3EhL6E3X9FN+aGykdHiwgH4IjIOUmJy6pKjgsK5svLPEyMzQBNj2EN6cHOQoKPAANQkMQQ6YTRQ+WSBkZTlw2T7I5URU8VB6/WmhcW8tfXSFiYCRlZm3oZ9dr0Tpu1DBx2nNA29ZD3T/G4ElJ5oxM5+JP6UVS7E7V8phY8/t19VF4+FR7/p3+/W");
}

#[test]
fn encode_of_nothing_is_empty() {
    assert_eq!(encode(&[]), "");
    assert_eq!(decode("").unwrap(), Vec::<u8>::new());
}

#[test]
fn encode_uses_every_symbol_of_the_alphabet() {
    // The 48 bytes 0x00, 0x10, 0x83, 0x10, 0x51, 0x87, ... hold the values 0 to 63
    // in their groups of six bits.
    let mut bytes: Vec<u8> = Vec::new();
    let mut group: u32 = 0;
    while group < 16 {
        let v = group * 4;
        let word = (v << 18) | ((v + 1) << 12) | ((v + 2) << 6) | (v + 3);
        bytes.push((word >> 16) as u8);
        bytes.push((word >> 8) as u8);
        bytes.push(word as u8);
        group += 1;
    }
    assert_eq!(
        encode(&bytes),
        "abcdefghijklmnopqrstuvwxyzABCDEFGHIJKLMNOPQRSTUVWXYZ0123456789+/"
    );
    assert_eq!(
        decode("abcdefghijklmnopqrstuvwxyzABCDEFGHIJKLMNOPQRSTUVWXYZ0123456789+/").unwrap(),
        bytes
    );
}

#[test]
fn encoded_length_is_four_thirds_rounded_up() {
    assert_eq!(encode(&[1]).len(), 2);
    assert_eq!(encode(&[1, 2]).len(), 3);
    assert_eq!(encode(&[1, 2, 3]).len(), 4);
    assert_eq!(encode(&[1, 2, 3, 4]).len(), 6);
    assert_eq!(encode(&[0; 11]).len(), 15);
}

#[test]
fn decode_refuses_a_length_of_four_n_plus_one() {
    assert_eq!(decode("a"), Err(CodecError::InvalidLength));
    assert_eq!(decode("aaaaa"), Err(CodecError::InvalidLength));
    assert_eq!(decode("aaaaaaaaa"), Err(CodecError::InvalidLength));
}

#[test]
fn decode_measures_the_length_in_bytes_before_it_reads() {
    // Three characters, five bytes of UTF-8: refused for the length.
    assert_eq!(decode("aéé"), Err(CodecError::InvalidLength));
    // Two characters, four bytes of UTF-8: refused for the characters.
    assert_eq!(decode("éé"), Err(CodecError::InvalidCharacter));
}

#[test]
fn decode_refuses_characters_outside_the_alphabet() {
    assert_eq!(decode("SGVsbG@"), Err(CodecError::InvalidCharacter));
    assert_eq!(decode("ab=="), Err(CodecError::InvalidCharacter));
    assert_eq!(decode("a b"), Err(CodecError::InvalidCharacter));
    assert_eq!(decode("ab-_"), Err(CodecError::InvalidCharacter));
}

#[test]
fn decode_drops_the_leftover_bits() {
    // "gq" and "gr" differ in the four bits that belong to no byte.
    assert_eq!(decode("gq").unwrap(), vec![25]);
    assert_eq!(decode("gr").unwrap(), vec![25]);
    assert_eq!(encode(&decode("gr").unwrap()), "gq");
}

#[test]
fn decode_undoes_encode_for_every_length() {
    let mut bytes: Vec<u8> = Vec::new();
    let mut n: u32 = 0;
    while n < 40 {
        assert_eq!(decode(&encode(&bytes)).unwrap(), bytes);
        bytes.push((n * 37 + 11) as u8);
        n += 1;
    }
}

#[test]
fn encode_undoes_decode_on_canonical_text() {
    assert_eq!(encode(&decode("sgvSBg8SifDVCMXKiq").unwrap()), "sgvSBg8SifDVCMXKiq");
    assert_eq!(encode(&decode("abcd").unwrap()), "abcd");
    assert_eq!(encode(&decode("ieysGjGO8papd/a").unwrap()), "ieysGjGO8papd/a");
}
