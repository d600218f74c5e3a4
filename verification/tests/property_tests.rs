use pngsecret::chunk::Chunk;
use pngsecret::chunk_type::ChunkType;
use pngsecret::error::PngError;
use pngsecret::png::{standard_header, Png};

fn build_chunk(type_text: &str, data: &str) -> Chunk {
    let chunk_type = ChunkType::from_str(type_text).unwrap();
    Chunk::new(chunk_type, data.as_bytes().to_vec())
}

#[test]
fn container_round_trip_preserves_records() {
    let chunks = vec![
        build_chunk("FRST", "first chunk"),
        build_chunk("miDl", "middle chunk"),
        build_chunk("IEND", "end chunk"),
    ];
    let expected: Vec<(u32, String, Vec<u8>, u32)> = chunks
        .iter()
        .map(|c| {
            (
                c.data_length(),
                c.chunk_type().to_text(),
                c.data().to_vec(),
                c.crc(),
            )
        })
        .collect();

    let png = Png::from_chunks(chunks);
    let decoded = Png::try_from(png.as_bytes().as_ref()).unwrap();

    assert_eq!(decoded.chunks().len(), expected.len());
    for (chunk, want) in decoded.chunks().iter().zip(expected.iter()) {
        assert_eq!(chunk.data_length(), want.0);
        assert_eq!(chunk.chunk_type().to_text(), want.1);
        assert_eq!(chunk.data().to_vec(), want.2);
        assert_eq!(chunk.crc(), want.3);
    }
}

#[test]
fn record_round_trip_preserves_fields() {
    let chunk = build_chunk("RuST", "test data");
    let decoded = Chunk::try_from(chunk.as_bytes().as_ref()).unwrap();

    assert_eq!(decoded.data_length(), chunk.data_length());
    assert_eq!(decoded.chunk_type().bytes(), chunk.chunk_type().bytes());
    assert_eq!(decoded.data(), chunk.data());
    assert_eq!(decoded.crc(), chunk.crc());
}

#[test]
fn checksum_is_deterministic_and_sensitive() {
    let a = build_chunk("RuST", "test data");
    let b = build_chunk("RuST", "test data");
    assert_eq!(a.crc(), b.crc());

    // Flip one bit of the payload: the checksum must change.
    let mut flipped = "test data".as_bytes().to_vec();
    flipped[0] ^= 0x01;
    let c = Chunk::new(ChunkType::from_str("RuST").unwrap(), flipped);
    assert_ne!(a.crc(), c.crc());
}

#[test]
fn validity_covers_all_flag_combinations() {
    // reserved bit clear, not (critical and safe-to-copy): valid
    assert!(ChunkType::from_str("ruSt").unwrap().is_valid());
    assert!(ChunkType::from_str("RuST").unwrap().is_valid());
    // reserved bit clear, critical and safe-to-copy: invalid
    assert!(!ChunkType::from_str("RuSt").unwrap().is_valid());
    // reserved bit set, not (critical and safe-to-copy): invalid
    assert!(!ChunkType::from_str("rust").unwrap().is_valid());
    assert!(!ChunkType::from_str("rust").unwrap().is_valid());
    // reserved bit set, critical and safe-to-copy: invalid
    assert!(!ChunkType::from_str("Rust").unwrap().is_valid());
}

#[test]
fn short_container_fails_too_short() {
    let bytes = [137u8, 80, 78, 71, 13, 10, 26];
    let result = Png::try_from(&bytes[..]);
    assert_eq!(result.unwrap_err(), PngError::TooShort);
}

#[test]
fn short_record_fails_too_short() {
    let bytes = [0u8; 11];
    let result = Chunk::try_from(&bytes[..]);
    assert_eq!(result.unwrap_err(), PngError::TooShort);
}

#[test]
fn removing_missing_type_fails_and_preserves_container() {
    let mut png = Png::from_chunks(vec![
        build_chunk("FRST", "first chunk"),
        build_chunk("IEND", "end chunk"),
    ]);
    let before = png.as_bytes();

    let result = png.remove_chunk("NOPE");

    assert_eq!(result.unwrap_err(), PngError::NotFound);
    assert_eq!(png.as_bytes(), before);
}

#[test]
fn append_preserves_prior_records_and_order() {
    let mut png = Png::from_chunks(vec![
        build_chunk("FRST", "first chunk"),
        build_chunk("miDl", "middle chunk"),
    ]);
    png.append_chunk(build_chunk("IEND", "end chunk"));

    let types: Vec<String> = png
        .chunks()
        .iter()
        .map(|c| c.chunk_type().to_text())
        .collect();
    assert_eq!(types, vec!["FRST", "miDl", "IEND"]);
}

#[test]
fn remove_then_reappend_moves_record_to_the_end() {
    let mut touched = Png::from_chunks(vec![
        build_chunk("FRST", "first chunk"),
        build_chunk("miDl", "middle chunk"),
        build_chunk("IEND", "end chunk"),
    ]);
    let removed = touched.remove_chunk("FRST").unwrap();
    touched.append_chunk(removed);

    let untouched = Png::from_chunks(vec![
        build_chunk("FRST", "first chunk"),
        build_chunk("miDl", "middle chunk"),
        build_chunk("IEND", "end chunk"),
    ]);

    let touched_types: Vec<String> = touched
        .chunks()
        .iter()
        .map(|c| c.chunk_type().to_text())
        .collect();
    let untouched_types: Vec<String> = untouched
        .chunks()
        .iter()
        .map(|c| c.chunk_type().to_text())
        .collect();
    assert_eq!(touched_types, vec!["miDl", "IEND", "FRST"]);
    assert_ne!(touched_types, untouched_types);
    assert_ne!(touched.as_bytes(), untouched.as_bytes());
}

#[test]
fn scenario_rust_type_checksum_and_round_trip() {
    let chunk = build_chunk("RuST", "test data");
    assert_eq!(chunk.data_length(), 9);
    assert_eq!(chunk.crc(), 3202946391);

    let decoded = Chunk::try_from(chunk.as_bytes().as_ref()).unwrap();
    assert_eq!(decoded.data_length(), 9);
    assert_eq!(decoded.chunk_type().to_text(), "RuST");
    assert_eq!(decoded.data_as_string().unwrap(), "test data");
    assert_eq!(decoded.crc(), 3202946391);
}

#[test]
fn scenario_lowercase_type_flags() {
    let chunk_type = ChunkType::from_str("rust").unwrap();
    assert!(!chunk_type.is_critical());
    assert!(!chunk_type.is_reserved_bit_valid());
    assert!(!chunk_type.is_valid());
}

#[test]
fn scenario_critical_and_safe_to_copy_is_invalid() {
    let chunk_type = ChunkType::from_str("RuSt").unwrap();
    assert!(chunk_type.is_critical());
    assert!(chunk_type.is_safe_to_copy());
    assert!(!chunk_type.is_valid());
}

#[test]
fn scenario_full_container_lookup_after_round_trip() {
    let png = Png::from_chunks(vec![
        build_chunk("FRST", "first chunk"),
        build_chunk("miDl", "middle chunk"),
        build_chunk("IEND", "end chunk"),
    ]);
    let decoded = Png::try_from(png.as_bytes().as_ref()).unwrap();

    let found = decoded.chunk_by_type("FRST").unwrap();
    assert_eq!(found.data_as_string().unwrap(), "first chunk");
}

#[test]
fn scenario_non_utf8_payload_fails_invalid_encoding() {
    let chunk = Chunk::new(ChunkType::from_str("RuST").unwrap(), vec![0x80]);
    assert_eq!(chunk.data_as_string().unwrap_err(), PngError::InvalidEncoding);
}

#[test]
fn from_str_rejects_wrong_length() {
    assert_eq!(
        ChunkType::from_str("RuS").unwrap_err(),
        PngError::WrongLength
    );
    assert_eq!(
        ChunkType::from_str("RuSts").unwrap_err(),
        PngError::WrongLength
    );
}

#[test]
fn from_str_rejects_non_letters() {
    assert_eq!(
        ChunkType::from_str("Ru5t").unwrap_err(),
        PngError::NotAllLetters
    );
}

#[test]
fn boundary_letters_are_accepted() {
    assert!(ChunkType::try_from([b'A', b'Z', b'A', b'z']).is_ok());
    assert!(ChunkType::try_from([b'a', b'z', b'Z', b'a']).is_ok());
    assert!(ChunkType::try_from([b'A' - 1, b'Z', b'A', b'z']).is_err());
    assert!(ChunkType::try_from([b'z' + 1, b'Z', b'A', b'z']).is_err());
}

#[test]
fn record_decode_reports_exact_errors() {
    // Valid-lettered but invalid type: InvalidType.
    let bad_type = Chunk::new(ChunkType::from_str("RuSt").unwrap(), "x".into());
    assert_eq!(
        Chunk::try_from(bad_type.as_bytes().as_ref()).unwrap_err(),
        PngError::InvalidType
    );

    // Wrong declared length: LengthMismatch.
    let good = build_chunk("RuST", "test data");
    let mut bytes = good.as_bytes();
    bytes[3] = bytes[3].wrapping_add(1);
    assert_eq!(
        Chunk::try_from(bytes.as_ref()).unwrap_err(),
        PngError::LengthMismatch
    );

    // Corrupted checksum: ChecksumMismatch.
    let mut bytes = good.as_bytes();
    let last = bytes.len() - 1;
    bytes[last] = bytes[last].wrapping_add(1);
    assert_eq!(
        Chunk::try_from(bytes.as_ref()).unwrap_err(),
        PngError::ChecksumMismatch
    );
}

#[test]
fn container_decode_reports_exact_errors() {
    // Wrong signature: BadHeader.
    let mut bytes = vec![0u8; 8];
    bytes[0] = 1;
    assert_eq!(
        Png::try_from(bytes.as_ref()).unwrap_err(),
        PngError::BadHeader
    );

    // Truncated record after a good signature: TooShort.
    let mut bytes = standard_header().to_vec();
    bytes.extend_from_slice(&[0, 0]);
    assert_eq!(
        Png::try_from(bytes.as_ref()).unwrap_err(),
        PngError::TooShort
    );

    // Declared length overruns the buffer: TooShort.
    let mut bytes = standard_header().to_vec();
    bytes.extend_from_slice(&[0, 0, 0, 99, b'R', b'u', b'S', b'T', 0, 0, 0, 0]);
    assert_eq!(
        Png::try_from(bytes.as_ref()).unwrap_err(),
        PngError::TooShort
    );
}

#[test]
fn summary_renders_all_fields() {
    let chunk = build_chunk("RuST", "test data");
    assert_eq!(
        chunk.summary(),
        "Chunk:\n\tlength: 9\n\ttype: RuST\n\tdata: 0x74 0x65 0x73 0x74 0x20 ...\n\tcrc: 3202946391"
    );

    let short = build_chunk("RuST", "ab");
    let expected = format!(
        "Chunk:\n\tlength: 2\n\ttype: RuST\n\tdata: 0x61 0x62\n\tcrc: {}",
        short.crc()
    );
    assert_eq!(short.summary(), expected);
}

#[test]
fn empty_payload_record_round_trips() {
    let chunk = Chunk::new(ChunkType::from_str("RuST").unwrap(), Vec::new());
    let decoded = Chunk::try_from(chunk.as_bytes().as_ref()).unwrap();
    assert_eq!(decoded.data_length(), 0);
    assert_eq!(decoded.data(), &[] as &[u8]);
    assert_eq!(decoded.crc(), chunk.crc());
}

#[test]
fn empty_container_round_trips() {
    let png = Png::from_chunks(Vec::new());
    let bytes = png.as_bytes();
    assert_eq!(bytes, standard_header().to_vec());

    let decoded = Png::try_from(bytes.as_ref()).unwrap();
    assert_eq!(decoded.chunks().len(), 0);
}

#[test]
fn error_descriptions_are_distinct() {
    let kinds = [
        PngError::TooShort,
        PngError::BadHeader,
        PngError::InvalidType,
        PngError::LengthMismatch,
        PngError::ChecksumMismatch,
        PngError::NotFound,
        PngError::InvalidEncoding,
        PngError::WrongLength,
        PngError::NotAllLetters,
    ];
    for (i, a) in kinds.iter().enumerate() {
        for (j, b) in kinds.iter().enumerate() {
            if i != j {
                assert_ne!(a.describe(), b.describe());
            }
        }
    }
}
