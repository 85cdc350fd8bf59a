use pngme::chunk::{Chunk, ChunkError};
use pngme::chunk_type::ChunkType;
use pngme::png::{Png, PngError, STANDARD_HEADER};

fn chunk_from_strings(chunk_type: &str, data: &str) -> Chunk {
    let chunk_type = ChunkType::from_text(chunk_type).unwrap();
    Chunk::new(chunk_type, data.bytes().collect())
}

fn testing_chunks() -> Vec<Chunk> {
    vec![
        chunk_from_strings("FrSt", "I am the first chunk"),
        chunk_from_strings("miDl", "I am another chunk"),
        chunk_from_strings("LASt", "I am the last chunk"),
    ]
}

fn testing_png() -> Png {
    Png::from_chunks(testing_chunks())
}

fn testing_file() -> Vec<u8> {
    let mut bytes: Vec<u8> = STANDARD_HEADER.to_vec();
    for chunk in testing_chunks() {
        bytes.extend(chunk.as_bytes());
    }
    bytes
}

#[test]
fn test_png_signature() {
    assert_eq!(STANDARD_HEADER, [0x89, 0x50, 0x4e, 0x47, 0x0d, 0x0a, 0x1a, 0x0a]);
    assert_eq!(testing_png().header(), STANDARD_HEADER);
}

#[test]
fn test_png_from_chunks() {
    let png = testing_png();
    assert_eq!(png.chunks().len(), 3);
    assert_eq!(png.chunks()[1].chunk_type().to_string(), "miDl");
}

#[test]
fn test_png_as_bytes() {
    assert_eq!(testing_png().as_bytes(), testing_file());
    assert_eq!(Png::from_chunks(Vec::new()).as_bytes(), STANDARD_HEADER.to_vec());
}

#[test]
fn test_png_parse() {
    let png = Png::try_from(testing_file().as_ref()).unwrap();
    assert_eq!(png.chunks().len(), 3);
    assert_eq!(png.chunks()[0].data_as_string().unwrap(), "I am the first chunk");
    assert_eq!(png.chunks()[2].chunk_type().to_string(), "LASt");
    assert_eq!(png.as_bytes(), testing_file());
}

#[test]
fn test_png_parse_signature_only() {
    let png = Png::parse(&STANDARD_HEADER).unwrap();
    assert_eq!(png.chunks().len(), 0);
}

#[test]
fn test_png_bad_signature() {
    let mut bytes = testing_file();
    bytes[0] = 13;
    assert_eq!(Png::parse(&bytes).err(), Some(PngError::BadSignature));
    let mut bytes = testing_file();
    bytes[7] = 11;
    assert_eq!(Png::parse(&bytes).err(), Some(PngError::BadSignature));
    assert_eq!(Png::parse(&[]).err(), Some(PngError::BadSignature));
    assert_eq!(Png::parse(&STANDARD_HEADER[..7]).err(), Some(PngError::BadSignature));
}

#[test]
fn test_png_bad_chunk_fails_the_file() {
    let mut bytes = testing_file();
    let n = bytes.len();
    bytes[n - 1] ^= 1;
    assert_eq!(Png::parse(&bytes).err(), Some(PngError::Chunk(ChunkError::CrcMismatch)));

    let mut bytes = testing_file();
    bytes[8 + 5] = b'1';
    assert_eq!(Png::parse(&bytes).err(), Some(PngError::Chunk(ChunkError::InvalidChunkType)));

    let bytes = testing_file();
    assert_eq!(
        Png::parse(&bytes[..n - 1]).err(),
        Some(PngError::Chunk(ChunkError::Malformed))
    );
}

#[test]
fn test_png_parse_stops_at_iend() {
    let mut bytes: Vec<u8> = STANDARD_HEADER.to_vec();
    bytes.extend(chunk_from_strings("FrSt", "first").as_bytes());
    bytes.extend(chunk_from_strings("IEND", "").as_bytes());
    let up_to_end = bytes.clone();
    bytes.extend_from_slice(b"not a chunk at all");
    let png = Png::parse(&bytes).unwrap();
    assert_eq!(png.chunks().len(), 2);
    assert_eq!(png.chunks()[1].chunk_type().to_string(), "IEND");
    assert_eq!(png.as_bytes(), up_to_end);
}

#[test]
fn test_png_one_chunk_file_round_trip() {
    let mut bytes: Vec<u8> = STANDARD_HEADER.to_vec();
    bytes.extend(chunk_from_strings("RuSt", "This is where your secret message will be!").as_bytes());
    let png = Png::parse(&bytes).unwrap();
    assert_eq!(png.as_bytes(), bytes);
}

#[test]
fn test_png_append_chunk() {
    let mut png = testing_png();
    png.append_chunk(chunk_from_strings("TeSt", "Message"));
    let chunk = png.chunk_by_type("TeSt").unwrap();
    assert_eq!(chunk.chunk_type().to_string(), "TeSt");
    assert_eq!(chunk.data_as_string().unwrap(), "Message");
    assert_eq!(png.chunks().len(), 4);
}

#[test]
fn test_png_chunk_by_type() {
    let png = testing_png();
    let chunk = png.chunk_by_type("FrSt").unwrap();
    assert_eq!(chunk.data_as_string().unwrap(), "I am the first chunk");
    assert!(png.chunk_by_type("frst").is_none());
    assert!(png.chunk_by_type("FrS").is_none());
    assert!(png.chunk_by_type("").is_none());
}

#[test]
fn test_png_chunk_by_type_takes_the_first() {
    let mut png = testing_png();
    png.append_chunk(chunk_from_strings("miDl", "a second one"));
    assert_eq!(
        png.chunk_by_type("miDl").unwrap().data_as_string().unwrap(),
        "I am another chunk"
    );
}

#[test]
fn test_png_remove_chunk() {
    let mut png = testing_png();
    png.append_chunk(chunk_from_strings("TeSt", "Message"));
    let removed = png.remove_chunk("TeSt").unwrap();
    assert_eq!(removed.data_as_string().unwrap(), "Message");
    assert!(png.chunk_by_type("TeSt").is_none());
}

#[test]
fn test_png_remove_takes_the_first() {
    let mut png = testing_png();
    png.append_chunk(chunk_from_strings("miDl", "a second one"));
    let removed = png.remove_chunk("miDl").unwrap();
    assert_eq!(removed.data_as_string().unwrap(), "I am another chunk");
    assert_eq!(png.chunks().len(), 3);
    assert_eq!(png.chunks()[1].chunk_type().to_string(), "LASt");
    assert_eq!(
        png.chunk_by_type("miDl").unwrap().data_as_string().unwrap(),
        "a second one"
    );
}

#[test]
fn test_png_append_then_remove_restores_bytes() {
    let mut png = testing_png();
    let before = png.as_bytes();
    png.append_chunk(chunk_from_strings("TeSt", "Message"));
    assert_ne!(png.as_bytes(), before);
    png.remove_chunk("TeSt").unwrap();
    assert_eq!(png.as_bytes(), before);
}

#[test]
fn test_png_remove_missing_changes_nothing() {
    let mut png = testing_png();
    let before = png.as_bytes();
    assert_eq!(png.remove_chunk("TeSt").err(), Some(PngError::ChunkTypeNotFound));
    assert_eq!(png.as_bytes(), before);
    assert_eq!(png.chunks().len(), 3);
}

#[test]
fn test_png_listing() {
    assert_eq!(testing_png().to_string(), "FrSt: 20\nmiDl: 18\nLASt: 19\n");
    assert_eq!(Png::from_chunks(Vec::new()).to_string(), "");
    let big = Png::from_chunks(vec![
        Chunk::new(ChunkType::from_text("IEND").unwrap(), Vec::new()),
        Chunk::new(ChunkType::from_text("RuSt").unwrap(), vec![7; 1005]),
    ]);
    assert_eq!(big.to_string(), "IEND: 0\nRuSt: 1005\n");
}
