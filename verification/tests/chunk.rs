use std::str::FromStr;

use pngme::chunk::Chunk;
use pngme::chunk::ChunkError;
use pngme::chunk_type::ChunkType;

fn testing_chunk() -> Chunk {
    let data_length: u32 = 42;
    let chunk_type = "RuSt".as_bytes();
    let message_bytes = "This is where your secret message will be!".as_bytes();
    let crc: u32 = 2882656334;

    let chunk_data: Vec<u8> = data_length
        .to_be_bytes()
        .iter()
        .chain(chunk_type.iter())
        .chain(message_bytes.iter())
        .chain(crc.to_be_bytes().iter())
        .copied()
        .collect();

    Chunk::try_from(chunk_data.as_ref()).unwrap()
}

#[test]
fn test_new_chunk() {
    let chunk_type = ChunkType::from_str("RuSt").unwrap();
    let data = "This is where your secret message will be!"
        .as_bytes()
        .to_vec();
    let chunk = Chunk::new(chunk_type, data);
    assert_eq!(chunk.length(), 42);
    assert_eq!(chunk.crc(), 2882656334);
}

#[test]
fn test_chunk_length() {
    let chunk = testing_chunk();
    assert_eq!(chunk.length(), 42);
}

#[test]
fn test_chunk_type() {
    let chunk = testing_chunk();
    assert_eq!(chunk.chunk_type().to_string(), String::from("RuSt"));
}

#[test]
fn test_chunk_string() {
    let chunk = testing_chunk();
    let chunk_string = chunk.data_as_string().unwrap();
    let expected_chunk_string = String::from("This is where your secret message will be!");
    assert_eq!(chunk_string, expected_chunk_string);
}

#[test]
fn test_chunk_crc() {
    let chunk = testing_chunk();
    assert_eq!(chunk.crc(), 2882656334);
}

#[test]
fn test_valid_chunk_from_bytes() {
    let data_length: u32 = 42;
    let chunk_type = "RuSt".as_bytes();
    let message_bytes = "This is where your secret message will be!".as_bytes();
    let crc: u32 = 2882656334;

    let chunk_data: Vec<u8> = data_length
        .to_be_bytes()
        .iter()
        .chain(chunk_type.iter())
        .chain(message_bytes.iter())
        .chain(crc.to_be_bytes().iter())
        .copied()
        .collect();

    let chunk = Chunk::try_from(chunk_data.as_ref()).unwrap();

    let chunk_string = chunk.data_as_string().unwrap();
    let expected_chunk_string = String::from("This is where your secret message will be!");

    assert_eq!(chunk.length(), 42);
    assert_eq!(chunk.chunk_type().to_string(), String::from("RuSt"));
    assert_eq!(chunk_string, expected_chunk_string);
    assert_eq!(chunk.crc(), 2882656334);
}

#[test]
fn test_invalid_chunk_from_bytes() {
    let data_length: u32 = 42;
    let chunk_type = "RuSt".as_bytes();
    let message_bytes = "This is where your secret message will be!".as_bytes();
    let crc: u32 = 2882656333;

    let chunk_data: Vec<u8> = data_length
        .to_be_bytes()
        .iter()
        .chain(chunk_type.iter())
        .chain(message_bytes.iter())
        .chain(crc.to_be_bytes().iter())
        .copied()
        .collect();

    let chunk = Chunk::try_from(chunk_data.as_ref());

    assert!(chunk.is_err());
}

#[test]
pub fn test_chunk_trait_impls() {
    let data_length: u32 = 42;
    let chunk_type = "RuSt".as_bytes();
    let message_bytes = "This is where your secret message will be!".as_bytes();
    let crc: u32 = 2882656334;

    let chunk_data: Vec<u8> = data_length
        .to_be_bytes()
        .iter()
        .chain(chunk_type.iter())
        .chain(message_bytes.iter())
        .chain(crc.to_be_bytes().iter())
        .copied()
        .collect();

    let chunk: Chunk = TryFrom::try_from(chunk_data.as_ref()).unwrap();

    let _chunk_string = format!("{}", chunk.to_string());
}

fn sample_bytes(crc: u32) -> Vec<u8> {
    let mut bytes: Vec<u8> = Vec::new();
    bytes.extend_from_slice(&42u32.to_be_bytes());
    bytes.extend_from_slice(b"RuSt");
    bytes.extend_from_slice(b"This is where your secret message will be!");
    bytes.extend_from_slice(&crc.to_be_bytes());
    bytes
}

#[test]
fn chunk_data_is_the_payload() {
    let chunk = testing_chunk();
    assert_eq!(
        chunk.data(),
        "This is where your secret message will be!".as_bytes()
    );
}

#[test]
fn chunk_as_bytes_is_the_exact_encoding() {
    let chunk = Chunk::new(ChunkType::from_str("RuSt").unwrap(), b"hello".to_vec());
    assert_eq!(
        chunk.as_bytes(),
        vec![0, 0, 0, 5, 82, 117, 83, 116, 104, 101, 108, 108, 111, 0x2c, 0xa1, 0x0f, 0xcc]
    );
    assert_eq!(chunk.crc(), 0x2ca10fcc);
}

#[test]
fn chunk_crc_check_value() {
    // the check value of CRC-32: the type and payload together read "123456789"
    let chunk = Chunk::new(ChunkType::try_from(*b"1234").unwrap(), b"56789".to_vec());
    assert_eq!(chunk.crc(), 0xcbf43926);
    assert_eq!(
        Chunk::calculate_crc(ChunkType::try_from(*b"1234").unwrap(), b"56789".to_vec()),
        0xcbf43926
    );
}

#[test]
fn chunk_calculate_crc_is_the_crc_of_the_chunk() {
    let chunk = testing_chunk();
    let crc = Chunk::calculate_crc(*chunk.chunk_type(), chunk.data().to_vec());
    assert_eq!(crc, 2882656334);
    assert_eq!(crc, chunk.crc());
}

#[test]
fn chunk_round_trip() {
    let payloads: [&[u8]; 4] = [b"", b"a", b"hello", &[0, 255, 128, 7, 7, 7]];
    for payload in payloads {
        let chunk = Chunk::new(ChunkType::from_str("teSt").unwrap(), payload.to_vec());
        let bytes = chunk.as_bytes();
        assert_eq!(bytes.len(), 12 + payload.len());
        let back = Chunk::try_from(bytes.as_slice()).unwrap();
        assert!(back.chunk_type() == chunk.chunk_type());
        assert_eq!(back.data(), chunk.data());
        assert_eq!(back.length(), chunk.length());
        assert_eq!(back.crc(), chunk.crc());
        assert_eq!(back.as_bytes(), bytes);
    }
}

#[test]
fn chunk_from_bytes_with_a_type_that_is_no_text() {
    let chunk = Chunk::new(ChunkType::try_from([0, 1, 2, 3]).unwrap(), vec![9]);
    let back = Chunk::try_from(chunk.as_bytes().as_slice()).unwrap();
    assert_eq!(back.chunk_type().bytes(), [0, 1, 2, 3]);
}

#[test]
fn chunk_shorter_than_twelve_bytes_is_too_short() {
    let bytes = sample_bytes(2882656334);
    for n in 0..12 {
        assert_eq!(
            Chunk::try_from(&bytes[..n]).err(),
            Some(ChunkError::Length)
        );
    }
    assert_eq!(Chunk::try_from(&bytes[..12]).err(), Some(ChunkError::Invalid));
}

#[test]
fn chunk_empty_payload_is_the_shortest_chunk() {
    let chunk = Chunk::new(ChunkType::from_str("IEND").unwrap(), Vec::new());
    let bytes = chunk.as_bytes();
    assert_eq!(bytes, vec![0, 0, 0, 0, 73, 69, 78, 68, 0xae, 0x42, 0x60, 0x82]);
    let back = Chunk::try_from(bytes.as_slice()).unwrap();
    assert_eq!(back.length(), 0);
}

#[test]
fn chunk_wrong_length_is_invalid() {
    let mut bytes = sample_bytes(2882656334);
    bytes[3] = 41;
    assert_eq!(Chunk::try_from(bytes.as_slice()).err(), Some(ChunkError::Invalid));
    let mut longer = sample_bytes(2882656334);
    longer.insert(20, 0);
    assert_eq!(Chunk::try_from(longer.as_slice()).err(), Some(ChunkError::Invalid));
}

#[test]
fn chunk_wrong_crc_is_invalid() {
    let bytes = sample_bytes(2882656333);
    assert_eq!(Chunk::try_from(bytes.as_slice()).err(), Some(ChunkError::Invalid));
}

#[test]
fn chunk_single_bit_flips_are_invalid() {
    let bytes = sample_bytes(2882656334);
    assert!(Chunk::try_from(bytes.as_slice()).is_ok());
    for at in 4..bytes.len() - 4 {
        for bit in 0..8 {
            let mut flipped = bytes.clone();
            flipped[at] ^= 1 << bit;
            assert_eq!(
                Chunk::try_from(flipped.as_slice()).err(),
                Some(ChunkError::Invalid)
            );
        }
    }
}

#[test]
fn chunk_data_as_string_refuses_what_is_no_text() {
    let chunk = Chunk::new(ChunkType::from_str("RuSt").unwrap(), vec![0xff, 0xfe]);
    assert_eq!(chunk.data_as_string().err(), Some(ChunkError::NonString));
    let cut = Chunk::new(ChunkType::from_str("RuSt").unwrap(), vec![0xe2, 0x82]);
    assert_eq!(cut.data_as_string().err(), Some(ChunkError::NonString));
}

#[test]
fn chunk_data_as_string_reads_utf8() {
    let chunk = Chunk::new(
        ChunkType::from_str("RuSt").unwrap(),
        "caf\u{e9} \u{20ac}".as_bytes().to_vec(),
    );
    assert_eq!(chunk.length(), 9);
    assert_eq!(chunk.data_as_string().unwrap(), "caf\u{e9} \u{20ac}");
    let empty = Chunk::new(ChunkType::from_str("RuSt").unwrap(), Vec::new());
    assert_eq!(empty.data_as_string().unwrap(), "");
}

#[test]
fn chunk_to_string_lists_the_fields() {
    let chunk = testing_chunk();
    assert_eq!(
        chunk.to_string(),
        "Chunk {\n  Length: 42\n  Type: RuSt\n  Data: 42 bytes\n  Crc: 2882656334\n}\n"
    );
    let empty = Chunk::new(ChunkType::from_str("IEND").unwrap(), Vec::new());
    assert_eq!(
        empty.to_string(),
        "Chunk {\n  Length: 0\n  Type: IEND\n  Data: 0 bytes\n  Crc: 2923585666\n}\n"
    );
}
