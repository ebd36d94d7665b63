use pngme::chunk::Chunk;
use pngme::chunk_type::{ChunkType, ChunkTypeError};
use pngme::commands::{decode, encode, print, remove, LibError};
use pngme::png::{Png, PngDecodeError};

fn minimal_png_bytes() -> Vec<u8> {
    let terminal = Chunk::new(ChunkType::parse_from_text("IEND").unwrap(), Vec::new());
    Png::from_chunks(vec![terminal]).as_bytes()
}

#[test]
fn encode_then_decode_recovers_the_message() {
    let bytes = minimal_png_bytes();
    let out = encode(
        &bytes,
        "RuSt",
        b"This is where your secret message will be!".to_vec(),
    )
    .unwrap();
    let chunk = decode(&out, "RuSt").unwrap();
    assert_eq!(
        chunk.data_as_string().unwrap(),
        "This is where your secret message will be!"
    );
}

#[test]
fn encode_keeps_terminal_chunk_last() {
    let bytes = minimal_png_bytes();
    let out = encode(&bytes, "RuSt", b"hidden".to_vec()).unwrap();
    let png = print(&out).unwrap();
    let k = png.chunks().len();
    assert_eq!(k, 2);
    assert_eq!(png.chunks()[0].chunk_type().text(), "RuSt");
    assert_eq!(png.chunks()[k - 1].chunk_type().text(), "IEND");
}

#[test]
fn encode_rejects_bad_identifier_text() {
    let bytes = minimal_png_bytes();
    assert_eq!(
        encode(&bytes, "toolong", b"x".to_vec()).unwrap_err(),
        LibError::InvalidChunkType(ChunkTypeError::InvalidLength)
    );
    assert_eq!(
        encode(&bytes, "Ru1t", b"x".to_vec()).unwrap_err(),
        LibError::InvalidChunkType(ChunkTypeError::InvalidByte)
    );
}

#[test]
fn encode_rejects_bad_container() {
    let r = encode(&[0, 1, 2], "RuSt", b"x".to_vec());
    assert_eq!(
        r.unwrap_err(),
        LibError::InvalidContainer(PngDecodeError::SignatureMismatch)
    );
}

#[test]
fn decode_missing_chunk_reports_not_found() {
    let bytes = minimal_png_bytes();
    assert_eq!(
        decode(&bytes, "RuSt").unwrap_err(),
        LibError::ChunkNotFound(String::from("RuSt"))
    );
}

#[test]
fn remove_hands_back_chunk_and_container_without_it() {
    let bytes = minimal_png_bytes();
    let with_chunk = encode(&bytes, "RuSt", b"hidden".to_vec()).unwrap();
    let (without, removed) = remove(&with_chunk, "RuSt").unwrap();
    assert_eq!(removed.data(), b"hidden".as_ref());
    assert_eq!(without, bytes);
    assert!(matches!(
        decode(&without, "RuSt"),
        Err(LibError::ChunkNotFound(_))
    ));
}

#[test]
fn remove_missing_chunk_reports_not_found() {
    let bytes = minimal_png_bytes();
    assert!(matches!(
        remove(&bytes, "RuSt"),
        Err(LibError::ChunkNotFound(_))
    ));
}

#[test]
fn print_decodes_the_container_for_display() {
    let bytes = minimal_png_bytes();
    let png = print(&bytes).unwrap();
    assert_eq!(png.chunks().len(), 1);
    assert_eq!(png.chunks()[0].chunk_type().text(), "IEND");
    assert_eq!(png.chunks()[0].length(), 0);
}
