use pngme::chunk::{Chunk, ChunkError};
use pngme::chunk_type::ChunkType;
use std::str::FromStr;

fn testing_bytes(crc: u32) -> Vec<u8> {
    let data_length: u32 = 42;
    let chunk_type = "RuSt".as_bytes();
    let message_bytes = "This is where your secret message will be!".as_bytes();

    data_length
        .to_be_bytes()
        .iter()
        .chain(chunk_type.iter())
        .chain(message_bytes.iter())
        .chain(crc.to_be_bytes().iter())
        .copied()
        .collect()
}

fn testing_chunk() -> Chunk {
    let chunk_data = testing_bytes(2882656334);
    Chunk::try_from(chunk_data.as_ref()).unwrap()
}

#[test]
fn test_new_chunk() {
    let chunk_type = ChunkType::from_str("RuSt").unwrap();
    let data = "This is where your secret message will be!"
        .as_bytes()
        .to_vec();
    let chunk = Chunk::new(chunk_type, data);
    assert_eq!(chunk.length(), 42);
    assert_eq!(chunk.crc(), 2882656334);
}

#[test]
fn test_chunk_length() {
    let chunk = testing_chunk();
    assert_eq!(chunk.length(), 42);
}

#[test]
fn test_chunk_type() {
    let chunk = testing_chunk();
    assert_eq!(chunk.chunk_type().to_string(), String::from("RuSt"));
}

#[test]
fn test_chunk_string() {
    let chunk = testing_chunk();
    let chunk_string = chunk.data_as_string().unwrap();
    let expected_chunk_string = String::from("This is where your secret message will be!");
    assert_eq!(chunk_string, expected_chunk_string);
}

#[test]
fn test_chunk_crc() {
    let chunk = testing_chunk();
    assert_eq!(chunk.crc(), 2882656334);
}

#[test]
fn test_valid_chunk_from_bytes() {
    let chunk_data = testing_bytes(2882656334);

    let chunk = Chunk::try_from(chunk_data.as_ref()).unwrap();

    let chunk_string = chunk.data_as_string().unwrap();
    let expected_chunk_string = String::from("This is where your secret message will be!");

    assert_eq!(chunk.length(), 42);
    assert_eq!(chunk.chunk_type().to_string(), String::from("RuSt"));
    assert_eq!(chunk_string, expected_chunk_string);
    assert_eq!(chunk.crc(), 2882656334);
}

#[test]
fn test_invalid_chunk_from_bytes() {
    let chunk_data = testing_bytes(2882656333);

    let chunk = Chunk::try_from(chunk_data.as_ref());

    assert!(chunk.is_err());
}

#[test]
pub fn test_chunk_trait_impls() {
    let chunk_data = testing_bytes(2882656334);

    let chunk: Chunk = TryFrom::try_from(chunk_data.as_ref()).unwrap();

    let _chunk_string = format!("{}", chunk.to_string());
}

#[test]
fn test_chunk_crc_mismatch_is_named() {
    let chunk_data = testing_bytes(2882656333);
    assert_eq!(Chunk::parse(&chunk_data).err(), Some(ChunkError::CrcMismatch));
}

#[test]
fn test_chunk_round_trip() {
    let chunk_type = ChunkType::from_str("RuSt").unwrap();
    let data = "This is where your secret message will be!".as_bytes().to_vec();
    let chunk = Chunk::new(chunk_type, data.clone());
    let bytes = chunk.as_bytes();
    assert_eq!(bytes, testing_bytes(2882656334));
    let back = Chunk::parse(&bytes).unwrap();
    assert_eq!(back.chunk_type(), chunk.chunk_type());
    assert_eq!(back.data(), chunk.data());
    assert_eq!(back.length(), chunk.length());
    assert_eq!(back.crc(), chunk.crc());
    assert_eq!(back.as_bytes(), bytes);
}

#[test]
fn test_chunk_round_trip_reserved_bit_set() {
    // a type that is not valid still makes a chunk that goes round
    let chunk_type = ChunkType::from_str("Rust").unwrap();
    assert!(!chunk_type.is_valid());
    let chunk = Chunk::new(chunk_type, vec![1, 2, 3]);
    let back = Chunk::parse(&chunk.as_bytes()).unwrap();
    assert_eq!(back.chunk_type().bytes(), [82, 117, 115, 116]);
    assert_eq!(back.data(), &[1, 2, 3]);
}

#[test]
fn test_empty_chunk() {
    let chunk = Chunk::new(ChunkType::from_str("IEND").unwrap(), Vec::new());
    assert_eq!(chunk.length(), 0);
    assert_eq!(chunk.crc(), 0xae426082);
    assert_eq!(
        chunk.as_bytes(),
        vec![0, 0, 0, 0, 73, 69, 78, 68, 0xae, 0x42, 0x60, 0x82]
    );
    assert_eq!(chunk.data_as_string().unwrap(), "");
    let back = Chunk::parse(&chunk.as_bytes()).unwrap();
    assert_eq!(back.length(), 0);
}

#[test]
fn test_chunk_wire_layout() {
    let chunk = Chunk::new(ChunkType::from_str("RuSt").unwrap(), vec![0xff; 258]);
    let bytes = chunk.as_bytes();
    assert_eq!(bytes.len(), 12 + 258);
    assert_eq!(&bytes[0..4], &[0, 0, 1, 2]);
    assert_eq!(&bytes[4..8], b"RuSt");
    assert_eq!(&bytes[8..266], &[0xff; 258][..]);
    assert_eq!(&bytes[266..270], &chunk.crc().to_be_bytes());
}

#[test]
fn test_chunk_trailing_bytes_are_ignored() {
    let mut bytes = testing_bytes(2882656334);
    bytes.extend_from_slice(&[9, 9, 9]);
    let chunk = Chunk::parse(&bytes).unwrap();
    assert_eq!(chunk.length(), 42);
}

#[test]
fn test_chunk_truncated() {
    let bytes = testing_bytes(2882656334);
    for n in [0, 3, 4, 8, 11, 12, 20, bytes.len() - 1] {
        assert_eq!(Chunk::parse(&bytes[..n]).err(), Some(ChunkError::Malformed));
    }
    assert!(Chunk::parse(&bytes).is_ok());
}

#[test]
fn test_chunk_invalid_type() {
    let mut bytes = testing_bytes(2882656334);
    bytes[6] = b'1';
    assert_eq!(Chunk::parse(&bytes).err(), Some(ChunkError::InvalidChunkType));
}

#[test]
fn test_chunk_bit_flips_in_crc_are_detected() {
    let bytes = testing_bytes(2882656334);
    let n = bytes.len();
    for i in (n - 4)..n {
        for bit in 0..8 {
            let mut flipped = bytes.clone();
            flipped[i] ^= 1 << bit;
            assert_eq!(Chunk::parse(&flipped).err(), Some(ChunkError::CrcMismatch));
        }
    }
}

#[test]
fn test_chunk_bit_flips_in_payload_are_detected() {
    let bytes = testing_bytes(2882656334);
    for i in 8..(bytes.len() - 4) {
        for bit in 0..8 {
            let mut flipped = bytes.clone();
            flipped[i] ^= 1 << bit;
            assert_eq!(Chunk::parse(&flipped).err(), Some(ChunkError::CrcMismatch));
        }
    }
}

#[test]
fn test_chunk_payload_not_utf8() {
    let chunk = Chunk::new(ChunkType::from_str("RuSt").unwrap(), vec![0xff, 0xfe]);
    assert_eq!(chunk.data_as_string(), Err(ChunkError::PayloadNotUtf8));
    let chunk = Chunk::new(ChunkType::from_str("RuSt").unwrap(), "h\u{e9}llo".as_bytes().to_vec());
    assert_eq!(chunk.data_as_string().unwrap(), "h\u{e9}llo");
    assert_eq!(chunk.to_string(), "h\u{e9}llo");
}
