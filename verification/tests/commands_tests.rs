use pngme::chunk::{Chunk, ChunkError};
use pngme::chunk_type::{ChunkType, ChunkTypeError};
use pngme::commands::{decode, encode, parse_chunk, print, remove, CommandError};
use pngme::png::{Png, PngError, STANDARD_HEADER};

fn testing_file() -> Vec<u8> {
    let chunks = vec![
        Chunk::new(ChunkType::from_text("FrSt").unwrap(), b"I am the first chunk".to_vec()),
        Chunk::new(ChunkType::from_text("LASt").unwrap(), b"I am the last chunk".to_vec()),
    ];
    Png::from_chunks(chunks).as_bytes()
}

#[test]
fn test_parse_chunk() {
    let chunk = parse_chunk(
        String::from("RuSt"),
        String::from("This is where your secret message will be!"),
    )
    .unwrap();
    assert_eq!(chunk.length(), 42);
    assert_eq!(chunk.crc(), 2882656334);
    assert_eq!(chunk.chunk_type().is_critical(), true);
    assert_eq!(chunk.chunk_type().is_public(), false);
    assert_eq!(
        parse_chunk(String::from("Ru1t"), String::from("x")).err(),
        Some(CommandError::ChunkType(ChunkTypeError::NotASCIILetters))
    );
    assert_eq!(
        parse_chunk(String::from("RuStt"), String::from("x")).err(),
        Some(CommandError::ChunkType(ChunkTypeError::BytesLengthError))
    );
}

#[test]
fn test_encode_new_file() {
    let bytes = encode(None, String::from("ruSt"), String::from("This is a secret message!")).unwrap();
    let mut expected: Vec<u8> = STANDARD_HEADER.to_vec();
    expected.extend(
        Chunk::new(
            ChunkType::from_text("ruSt").unwrap(),
            b"This is a secret message!".to_vec(),
        )
        .as_bytes(),
    );
    assert_eq!(bytes, expected);
}

#[test]
fn test_encode_existing_file() {
    let file = testing_file();
    let bytes = encode(Some(&file), String::from("ruSt"), String::from("hidden")).unwrap();
    let png = Png::parse(&bytes).unwrap();
    assert_eq!(png.chunks().len(), 3);
    assert_eq!(png.chunks()[2].data_as_string().unwrap(), "hidden");
    assert_eq!(&bytes[..file.len()], &file[..]);
}

#[test]
fn test_encode_errors() {
    assert_eq!(
        encode(Some(b"not a png"), String::from("Ru1t"), String::from("x")).err(),
        Some(CommandError::Png(PngError::BadSignature))
    );
    assert_eq!(
        encode(Some(&testing_file()), String::from("Ru1t"), String::from("x")).err(),
        Some(CommandError::ChunkType(ChunkTypeError::NotASCIILetters))
    );
    assert_eq!(
        encode(None, String::from("Ru"), String::from("x")).err(),
        Some(CommandError::ChunkType(ChunkTypeError::BytesLengthError))
    );
}

#[test]
fn test_decode() {
    let file = encode(Some(&testing_file()), String::from("ruSt"), String::from("hidden")).unwrap();
    assert_eq!(decode(&file, "ruSt").unwrap(), "hidden");
    assert_eq!(decode(&file, "FrSt").unwrap(), "I am the first chunk");
    assert_eq!(decode(&file, "none").err(), Some(CommandError::NotExistingChunkType));
    assert_eq!(
        decode(&file[1..], "ruSt").err(),
        Some(CommandError::Png(PngError::BadSignature))
    );
}

#[test]
fn test_decode_payload_not_text() {
    let chunks = vec![Chunk::new(ChunkType::from_text("biNa").unwrap(), vec![0xff, 0x00])];
    let file = Png::from_chunks(chunks).as_bytes();
    assert_eq!(
        decode(&file, "biNa").err(),
        Some(CommandError::Chunk(ChunkError::PayloadNotUtf8))
    );
}

#[test]
fn test_remove() {
    let before = testing_file();
    let file = encode(Some(&before), String::from("ruSt"), String::from("hidden")).unwrap();
    assert_eq!(remove(Some(&file), "ruSt").unwrap(), before);
    assert_eq!(
        remove(Some(&before), "ruSt").err(),
        Some(CommandError::Png(PngError::ChunkTypeNotFound))
    );
    assert_eq!(remove(None, "ruSt").err(), Some(CommandError::NotExistingChunkType));
    assert_eq!(
        remove(Some(b"junk"), "ruSt").err(),
        Some(CommandError::Png(PngError::BadSignature))
    );
}

#[test]
fn test_print() {
    assert_eq!(print(&testing_file()).unwrap(), "FrSt: 20\nLASt: 19\n");
    assert_eq!(print(b"junk").err(), Some(CommandError::Png(PngError::BadSignature)));
}
