use pngme::chunk::{Chunk, ChunkDecodeError};
use pngme::chunk_type::{ChunkType, ChunkTypeError};
use pngme::png::{Png, PngDecodeError};

fn chunk_of(ty: &str, data: &[u8]) -> Chunk {
    Chunk::new(ChunkType::parse_from_text(ty).unwrap(), data.to_vec())
}

fn sample_png() -> Png {
    Png::from_chunks(vec![
        chunk_of("FrSt", b"I am the first chunk"),
        chunk_of("miDl", b"I am another chunk"),
        chunk_of("IEND", b""),
    ])
}

#[test]
fn chunk_round_trip_preserves_identifier_and_payload() {
    let c = chunk_of("RuSt", b"This is where your secret message will be!");
    let bytes = c.as_bytes();
    let parsed = Chunk::parse_from_bytes(&bytes).unwrap();
    assert_eq!(parsed.chunk_type().bytes(), c.chunk_type().bytes());
    assert_eq!(parsed.data(), c.data());
    assert_eq!(parsed.crc(), c.crc());
}

#[test]
fn chunk_serialized_layout_is_exact() {
    let c = chunk_of("RuSt", b"This is where your secret message will be!");
    let bytes = c.as_bytes();
    assert_eq!(bytes.len(), 12 + 42);
    assert_eq!(&bytes[0..4], &[0, 0, 0, 42]);
    assert_eq!(&bytes[4..8], b"RuSt");
    assert_eq!(
        &bytes[8..50],
        b"This is where your secret message will be!".as_ref()
    );
    assert_eq!(&bytes[50..54], &2882656334u32.to_be_bytes());
}

#[test]
fn chunk_bit_flip_in_identifier_or_payload_fails_checksum() {
    let c = chunk_of("RuSt", b"This is where your secret message will be!");
    let bytes = c.as_bytes();
    // every bit of the identifier and payload regions
    for pos in 4..(8 + 42) {
        for bit in 0..8 {
            let mut corrupted = bytes.clone();
            corrupted[pos] ^= 1 << bit;
            let r = Chunk::parse_from_bytes(&corrupted);
            match r {
                Err(ChunkDecodeError::ChecksumMismatch) => {}
                Err(ChunkDecodeError::InvalidIdentifier(_)) if pos < 8 => {
                    // a flip may turn an identifier byte into a non-letter,
                    // which is caught before the checksum
                }
                other => panic!("corrupted chunk decoded as {:?}", other),
            }
        }
    }
}

#[test]
fn chunk_shorter_than_twelve_bytes_is_truncated() {
    for n in 0..12 {
        let bytes = vec![0u8; n];
        assert_eq!(
            Chunk::parse_from_bytes(&bytes).unwrap_err(),
            ChunkDecodeError::Truncated
        );
    }
}

#[test]
fn chunk_wrong_declared_length_is_length_mismatch() {
    let c = chunk_of("RuSt", b"abc");
    let mut bytes = c.as_bytes();
    bytes.push(0);
    assert_eq!(
        Chunk::parse_from_bytes(&bytes).unwrap_err(),
        ChunkDecodeError::LengthMismatch
    );
}

#[test]
fn chunk_non_letter_identifier_is_invalid_identifier() {
    let mut bytes = vec![0, 0, 0, 0];
    bytes.extend_from_slice(b"Ru1t");
    bytes.extend_from_slice(&[0, 0, 0, 0]);
    assert_eq!(
        Chunk::parse_from_bytes(&bytes).unwrap_err(),
        ChunkDecodeError::InvalidIdentifier(ChunkTypeError::InvalidByte)
    );
}

#[test]
fn chunk_invalid_utf8_payload_is_not_text() {
    let c = chunk_of("RuSt", &[0xff, 0xfe, 0x41]);
    assert!(c.data_as_string().is_err());
}

#[test]
fn png_round_trip_preserves_chunks_in_order() {
    let png = sample_png();
    let bytes = png.as_bytes();
    let parsed = Png::parse_from_bytes(&bytes).unwrap();
    assert_eq!(parsed.chunks().len(), 3);
    assert_eq!(parsed.chunks()[0].chunk_type().text(), "FrSt");
    assert_eq!(parsed.chunks()[1].chunk_type().text(), "miDl");
    assert_eq!(parsed.chunks()[2].chunk_type().text(), "IEND");
    assert_eq!(parsed.chunks()[0].data(), b"I am the first chunk".as_ref());
    assert_eq!(parsed.as_bytes(), bytes);
}

#[test]
fn png_wrong_signature_fails_whatever_follows() {
    let png = sample_png();
    let mut bytes = png.as_bytes();
    bytes[0] = 13;
    assert!(matches!(
        Png::parse_from_bytes(&bytes),
        Err(PngDecodeError::SignatureMismatch)
    ));
    assert!(matches!(
        Png::parse_from_bytes(&[137, 80, 78]),
        Err(PngDecodeError::SignatureMismatch)
    ));
}

#[test]
fn png_corrupt_chunk_fails_the_whole_parse() {
    let png = sample_png();
    let mut bytes = png.as_bytes();
    // flip a payload byte of the first chunk (offset 8 sig-end + 8 header)
    bytes[16] ^= 0x01;
    assert!(matches!(
        Png::parse_from_bytes(&bytes),
        Err(PngDecodeError::InvalidChunk(
            ChunkDecodeError::ChecksumMismatch
        ))
    ));
}

#[test]
fn png_append_lands_before_terminal_and_is_found() {
    let mut png = sample_png();
    png.append_chunk(chunk_of("TeSt", b"Message I want to hide"));
    let target = ChunkType::parse_from_text("TeSt").unwrap();
    let found = png.chunk_by_type(&target).unwrap();
    assert_eq!(found.data(), b"Message I want to hide".as_ref());
    let k = png.chunks().len();
    assert_eq!(k, 4);
    assert_eq!(png.chunks()[k - 1].chunk_type().text(), "IEND");
    assert_eq!(png.chunks()[k - 2].chunk_type().text(), "TeSt");
}

#[test]
fn png_find_first_match_or_none() {
    let png = sample_png();
    let target = ChunkType::parse_from_text("miDl").unwrap();
    assert_eq!(
        png.chunk_by_type(&target).unwrap().data(),
        b"I am another chunk".as_ref()
    );
    let missing = ChunkType::parse_from_text("NoPe").unwrap();
    assert!(png.chunk_by_type(&missing).is_none());
}

#[test]
fn png_remove_present_keeps_order_of_rest() {
    let mut png = sample_png();
    let target = ChunkType::parse_from_text("miDl").unwrap();
    let removed = png.remove_chunk(&target).unwrap();
    assert_eq!(removed.data(), b"I am another chunk".as_ref());
    assert_eq!(png.chunks().len(), 2);
    assert_eq!(png.chunks()[0].chunk_type().text(), "FrSt");
    assert_eq!(png.chunks()[1].chunk_type().text(), "IEND");
    assert!(png.chunk_by_type(&target).is_none());
}

#[test]
fn png_remove_absent_fails_and_leaves_container_unchanged() {
    let mut png = sample_png();
    let before = png.as_bytes();
    let target = ChunkType::parse_from_text("NoPe").unwrap();
    assert!(png.remove_chunk(&target).is_err());
    assert_eq!(png.as_bytes(), before);
}

#[test]
fn png_parse_stops_after_terminal_chunk() {
    let png = sample_png();
    let mut bytes = png.as_bytes();
    // trailing garbage after the terminal chunk is ignored
    bytes.extend_from_slice(&[1, 2, 3]);
    let parsed = Png::parse_from_bytes(&bytes).unwrap();
    assert_eq!(parsed.chunks().len(), 3);
}
