use pngme::chunk::{Chunk, ParseChunkError};
use pngme::chunk_type::ChunkType;
use pngme::png::Png;

fn chunk_of(tag: &str, msg: &str) -> Chunk {
    let chunk_type = ChunkType::from_str(tag).unwrap();
    Chunk::new(chunk_type, msg.as_bytes().to_vec())
}

fn testing_png() -> Png {
    let mut png = Png::new();
    png.append_chunk(chunk_of("FrSt", "I am the first chunk"));
    png.append_chunk(chunk_of("miDl", "I am another chunk"));
    png.append_chunk(chunk_of("LASt", "I am the last chunk"));
    png
}

#[test]
fn test_empty_png_serializes_to_signature() {
    let png = Png::new();
    assert_eq!(png.as_bytes(), vec![137, 80, 78, 71, 13, 10, 26, 10]);
    assert_eq!(png.chunks().len(), 0);
}

#[test]
fn test_parse_signature_only() {
    let bytes: Vec<u8> = vec![137, 80, 78, 71, 13, 10, 26, 10];
    let png = Png::try_from(bytes.as_slice()).unwrap();
    assert_eq!(png.chunks().len(), 0);
}

#[test]
fn test_parse_bad_signature() {
    let bytes: Vec<u8> = vec![13, 80, 78, 71, 13, 10, 26, 10];
    let png = Png::try_from(bytes.as_slice());
    assert_eq!(png.unwrap_err(), ParseChunkError::FormatError);
}

#[test]
fn test_parse_too_short() {
    let bytes: Vec<u8> = vec![137, 80, 78];
    assert!(Png::try_from(bytes.as_slice()).is_err());
}

#[test]
fn test_png_round_trip() {
    let png = testing_png();
    let bytes = png.as_bytes();

    let reparsed = Png::try_from(bytes.as_slice()).unwrap();
    assert_eq!(reparsed.chunks().len(), png.chunks().len());
    for i in 0..png.chunks().len() {
        let a = &png.chunks()[i];
        let b = &reparsed.chunks()[i];
        assert_eq!(a.chunk_type(), b.chunk_type());
        assert_eq!(a.data(), b.data());
        assert_eq!(a.length(), b.length());
        assert_eq!(a.crc(), b.crc());
    }
    assert_eq!(reparsed.as_bytes(), bytes);
}

#[test]
fn test_parse_propagates_chunk_integrity_error() {
    let png = testing_png();
    let mut bytes = png.as_bytes();
    // Corrupt the stored CRC of the last chunk (the final 4 bytes).
    let last = bytes.len() - 1;
    bytes[last] ^= 0x01;
    let reparsed = Png::try_from(bytes.as_slice());
    assert_eq!(reparsed.unwrap_err(), ParseChunkError::IntegrityError);
}

#[test]
fn test_parse_rejects_trailing_garbage() {
    let png = testing_png();
    let mut bytes = png.as_bytes();
    bytes.push(0);
    assert!(Png::try_from(bytes.as_slice()).is_err());
}

#[test]
fn test_append_chunk_then_lookup() {
    let mut png = testing_png();
    png.append_chunk(chunk_of("TeSt", "Message"));
    let chunk = png.chunk_by_type("TeSt").unwrap();
    assert_eq!(&chunk.chunk_type().to_string(), "TeSt");
    assert_eq!(chunk.data_as_string().unwrap(), String::from("Message"));
    assert_eq!(png.chunks().len(), 4);
}

#[test]
fn test_chunk_by_type_not_found() {
    let png = testing_png();
    assert!(png.chunk_by_type("noPe").is_none());
    assert!(png.chunk_by_type("way too long").is_none());
    assert!(png.chunk_by_type("").is_none());
}

#[test]
fn test_chunk_by_type_returns_first_match() {
    let mut png = Png::new();
    png.append_chunk(chunk_of("duPl", "first"));
    png.append_chunk(chunk_of("duPl", "second"));
    let found = png.chunk_by_type("duPl").unwrap();
    assert_eq!(found.data_as_string().unwrap(), String::from("first"));
}

#[test]
fn test_remove_chunk() {
    let mut png = testing_png();
    let removed = png.remove_chunk("miDl").unwrap();
    assert_eq!(removed.data_as_string().unwrap(), String::from("I am another chunk"));
    assert!(png.chunk_by_type("miDl").is_none());
    assert_eq!(png.chunks().len(), 2);
}

#[test]
fn test_remove_chunk_not_found_leaves_png_unchanged() {
    let mut png = testing_png();
    let before = png.as_bytes();
    assert!(png.remove_chunk("noPe").is_err());
    assert_eq!(png.as_bytes(), before);
    assert_eq!(png.chunks().len(), 3);
}

#[test]
fn test_remove_chunk_removes_only_first_match() {
    let mut png = Png::new();
    png.append_chunk(chunk_of("duPl", "first"));
    png.append_chunk(chunk_of("otHr", "keep me"));
    png.append_chunk(chunk_of("duPl", "second"));

    let removed = png.remove_chunk("duPl").unwrap();
    assert_eq!(removed.data_as_string().unwrap(), String::from("first"));
    assert_eq!(png.chunks().len(), 2);

    let still_there = png.chunk_by_type("duPl").unwrap();
    assert_eq!(still_there.data_as_string().unwrap(), String::from("second"));
    assert_eq!(&png.chunks()[0].chunk_type().to_string(), "otHr");
}

#[test]
fn test_secret_message_hiding() {
    let mut png = testing_png();
    let secret = "This is where your secret message will be!";
    png.append_chunk(chunk_of("RuSt", secret));

    let bytes = png.as_bytes();
    let reparsed = Png::try_from(bytes.as_slice()).unwrap();
    let chunk = reparsed.chunk_by_type("RuSt").unwrap();
    assert_eq!(chunk.data_as_string().unwrap(), String::from(secret));
    assert_eq!(chunk.crc(), 2882656334);
    assert_eq!(chunk.length(), 42);
}
