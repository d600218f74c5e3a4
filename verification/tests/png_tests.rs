use pngsecret::chunk::Chunk;
use pngsecret::chunk_type::ChunkType;
use pngsecret::error::PngError;
use pngsecret::png::{standard_header, Png};

fn chunk_from_string(chunk_type: &str, data: &str) -> Result<Chunk, PngError> {
    let chunk_type = ChunkType::from_str(chunk_type)?;
    let data = data.into();
    Ok(Chunk::new(chunk_type, data))
}

fn testing_chunks() -> Vec<Chunk> {
    let mut chunks = Vec::<Chunk>::new();

    chunks.push(chunk_from_string("FRST", "first chunk").unwrap());
    chunks.push(chunk_from_string("miDl", "middle chunk").unwrap());
    chunks.push(chunk_from_string("IEND", "end chunk").unwrap());

    chunks
}

fn testing_png_bytes(header: [u8; 8], chunks: Vec<Chunk>) -> Vec<u8> {
    let mut bytes: Vec<u8> = Vec::new();
    bytes.extend_from_slice(&header);
    for chunk in chunks {
        bytes.extend_from_slice(&chunk.as_bytes());
    }
    bytes
}

fn testing_png() -> Png {
    let chunks = testing_chunks();
    Png::from_chunks(chunks)
}

#[test]
fn from_chunks() {
    let chunks = testing_chunks();
    let png = Png::from_chunks(chunks);

    assert_eq!(png.chunks().len(), 3);
}

#[test]
fn ok_try_from_valid_bytes() {
    let bytes = testing_png_bytes(standard_header(), testing_chunks());

    let png = Png::try_from(bytes.as_ref());

    assert!(png.is_ok());
}

#[test]
fn err_try_from_invalid_header() {
    let wrong_header = [13, 80, 78, 71, 13, 10, 26, 10];
    let bytes = testing_png_bytes(wrong_header, testing_chunks());

    let png = Png::try_from(bytes.as_ref());

    assert!(png.is_err());
}

#[test]
fn err_try_from_invalid_chunk() {
    let mut chunks = testing_chunks();
    let invalid_chunk = Chunk::new(ChunkType::from_str("RUSt").unwrap(), "test data".into());
    chunks.push(invalid_chunk);
    let bytes = testing_png_bytes(standard_header(), chunks);

    let png = Png::try_from(bytes.as_ref());

    assert!(png.is_err());
}

#[test]
fn list_chunks() {
    let png = testing_png();
    let chunks = png.chunks();
    assert_eq!(chunks.len(), 3);
}

#[test]
fn chunk_by_type() {
    let png = testing_png();
    let chunk = png.chunk_by_type("FRST").unwrap();

    assert_eq!(chunk.chunk_type().to_text(), "FRST");
    assert_eq!(chunk.data_as_string().unwrap(), "first chunk");
}

#[test]
fn append_chunk() {
    let mut png = testing_png();
    png.append_chunk(chunk_from_string("TeST", "test data").unwrap());

    let chunk = png.chunk_by_type("TeST").unwrap();

    assert_eq!(chunk.chunk_type().to_text(), "TeST");
    assert_eq!(chunk.data_as_string().unwrap(), "test data");
}

#[test]
fn remove_chunk() {
    let mut png = testing_png();
    png.append_chunk(chunk_from_string("TeST", "test data").unwrap());
    png.remove_chunk("TeST").unwrap();

    let chunk = png.chunk_by_type("TeST");

    assert!(chunk.is_none());
}

#[test]
fn png_fromimage_file() {
    let png = Png::try_from(&PNG_FILE[..]);
    assert!(png.is_ok());
}

#[test]
fn as_bytes() {
    let png = Png::try_from(&PNG_FILE[..]).unwrap();
    let actual = png.as_bytes();
    let expcted = PNG_FILE.to_vec();
    assert_eq!(actual, expcted);
}

#[test]
fn test_png_trait_impls() {
    let chunks = testing_chunks();
    let bytes = testing_png_bytes(standard_header(), chunks);

    let png: Png = Png::try_from(bytes.as_ref()).unwrap();

    let mut png_string = String::new();
    for chunk in png.chunks() {
        png_string.push_str(&chunk.summary());
        png_string.push('\n');
    }
}

const PNG_FILE: [u8; 88] = [
    0x89, 0x50, 0x4e, 0x47, 0x0d, 0x0a, 0x1a, 0x0a, 0x00, 0x00, 0x00, 0x0d, 0x49, 0x48, 0x44,
    0x52, 0x00, 0x00, 0x00, 0x03, 0x00, 0x00, 0x00, 0x02, 0x08, 0x02, 0x00, 0x00, 0x00, 0x12,
    0x16, 0xf1, 0x4d, 0x00, 0x00, 0x00, 0x1f, 0x49, 0x44, 0x41, 0x54, 0x08, 0x1d, 0x01, 0x14,
    0x00, 0xeb, 0xff, 0x00, 0xff, 0x00, 0x00, 0x00, 0xff, 0x00, 0x00, 0x00, 0xff, 0x00, 0x00,
    0x00, 0x00, 0x80, 0x80, 0x80, 0xff, 0xff, 0xff, 0x3a, 0x61, 0x07, 0x7b, 0xcb, 0xca, 0x5c,
    0x63, 0x00, 0x00, 0x00, 0x00, 0x49, 0x45, 0x4e, 0x44, 0xae, 0x42, 0x60, 0x82,
];
