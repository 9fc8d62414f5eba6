use pngme::chunk::Chunk;
use pngme::chunk_type::ChunkType;
use pngme::error::{DecodeFailure, Error};
use pngme::png::Png;

const MAGIC: [u8; 8] = [137, 80, 78, 71, 13, 10, 26, 10];

fn chunk(code: &str, data: &[u8]) -> Chunk {
    Chunk::new(ChunkType::from_text(code).unwrap(), data.to_vec())
}

fn sample() -> Png {
    Png::from_chunks(vec![
        chunk("IHDR", &[0, 0, 0, 1, 0, 0, 0, 1, 8, 0, 0, 0, 0]),
        chunk("ruSt", b"This is where your secret message will be!"),
        chunk("IEND", &[]),
    ])
}

fn codes(png: &Png) -> Vec<String> {
    let mut out = Vec::new();
    for c in png.chunks() {
        out.push(c.chunk_type().to_text().unwrap());
    }
    out
}

#[test]
fn header_is_the_signature() {
    assert_eq!(sample().header(), &MAGIC);
    assert_eq!(Png::from_chunks(Vec::new()).header(), &MAGIC);
    assert_eq!(Png::STANDARD_HEADER, MAGIC);
}

#[test]
fn from_chunks_keeps_the_order() {
    let png = sample();
    assert_eq!(png.chunks().len(), 3);
    assert_eq!(codes(&png), vec!["IHDR", "ruSt", "IEND"]);
    assert_eq!(png.chunks()[1], chunk("ruSt", b"This is where your secret message will be!"));
}

#[test]
fn append_chunk_adds_at_the_end() {
    let mut png = sample();
    png.append_chunk(chunk("tEXt", b"late"));
    assert_eq!(codes(&png), vec!["IHDR", "ruSt", "IEND", "tEXt"]);
    // A second chunk of a type that is present is added like any other.
    png.append_chunk(chunk("ruSt", b"again"));
    assert_eq!(codes(&png), vec!["IHDR", "ruSt", "IEND", "tEXt", "ruSt"]);
    assert_eq!(png.chunks()[4], chunk("ruSt", b"again"));
}

#[test]
fn chunk_by_type_finds_the_middle_chunk() {
    let png = sample();
    let found = png.chunk_by_type("ruSt").unwrap();
    assert_eq!(found, &chunk("ruSt", b"This is where your secret message will be!"));
    assert_eq!(found, &png.chunks()[1]);
}

#[test]
fn chunk_by_type_finds_the_first_of_several() {
    let png = Png::from_chunks(vec![
        chunk("IHDR", &[]),
        chunk("tEXt", b"one"),
        chunk("tEXt", b"two"),
        chunk("IEND", &[]),
    ]);
    assert_eq!(png.chunk_by_type("tEXt"), Some(&chunk("tEXt", b"one")));
}

#[test]
fn chunk_by_type_is_none_when_absent() {
    let png = sample();
    assert_eq!(png.chunk_by_type("tEXt"), None);
    // Case matters.
    assert_eq!(png.chunk_by_type("RuSt"), None);
    assert_eq!(png.chunk_by_type("rust"), None);
    // A code of another length matches nothing.
    assert_eq!(png.chunk_by_type("ruS"), None);
    assert_eq!(png.chunk_by_type(""), None);
    assert_eq!(Png::from_chunks(Vec::new()).chunk_by_type("IHDR"), None);
}

#[test]
fn remove_chunk_takes_out_the_middle_chunk() {
    let mut png = sample();
    let removed = png.remove_chunk("ruSt").unwrap();
    assert_eq!(removed, chunk("ruSt", b"This is where your secret message will be!"));
    assert_eq!(png.chunks().len(), 2);
    assert_eq!(codes(&png), vec!["IHDR", "IEND"]);
    assert_eq!(png.chunk_by_type("ruSt"), None);
}

#[test]
fn remove_chunk_takes_only_the_first_of_several() {
    let mut png = Png::from_chunks(vec![
        chunk("tEXt", b"one"),
        chunk("IDAT", b"x"),
        chunk("tEXt", b"two"),
        chunk("tEXt", b"three"),
    ]);
    assert_eq!(png.remove_chunk("tEXt"), Ok(chunk("tEXt", b"one")));
    assert_eq!(
        png,
        Png::from_chunks(vec![chunk("IDAT", b"x"), chunk("tEXt", b"two"), chunk("tEXt", b"three")])
    );
    assert_eq!(png.remove_chunk("tEXt"), Ok(chunk("tEXt", b"two")));
    assert_eq!(png.remove_chunk("tEXt"), Ok(chunk("tEXt", b"three")));
    assert_eq!(png.remove_chunk("tEXt"), Err(Error::NotFound));
    assert_eq!(png, Png::from_chunks(vec![chunk("IDAT", b"x")]));
}

#[test]
fn remove_chunk_fails_when_absent_and_changes_nothing() {
    let mut png = sample();
    assert_eq!(png.remove_chunk("tEXt"), Err(Error::NotFound));
    assert_eq!(png.remove_chunk("RuSt"), Err(Error::NotFound));
    assert_eq!(png, sample());
    let mut empty = Png::from_chunks(Vec::new());
    assert_eq!(empty.remove_chunk("IEND"), Err(Error::NotFound));
}

#[test]
fn remove_chunk_refuses_a_code_that_is_not_four_bytes() {
    let mut png = sample();
    assert_eq!(png.remove_chunk("ruS"), Err(Error::InvalidTypeCode));
    assert_eq!(png.remove_chunk("ruSty"), Err(Error::InvalidTypeCode));
    assert_eq!(png.remove_chunk(""), Err(Error::InvalidTypeCode));
    assert_eq!(png, sample());
}

#[test]
fn as_bytes_is_signature_then_chunks() {
    let png = sample();
    let bytes = png.as_bytes();
    let mut expected = MAGIC.to_vec();
    for c in png.chunks() {
        expected.extend_from_slice(&c.as_bytes());
    }
    assert_eq!(bytes, expected);
    assert_eq!(bytes.len(), 8 + (12 + 13) + (12 + 42) + 12);
}

#[test]
fn as_bytes_of_an_empty_stream_is_the_signature() {
    assert_eq!(Png::from_chunks(Vec::new()).as_bytes(), MAGIC.to_vec());
}

#[test]
fn as_bytes_exact_for_a_closing_chunk_alone() {
    let png = Png::from_chunks(vec![chunk("IEND", &[])]);
    assert_eq!(
        png.as_bytes(),
        vec![137, 80, 78, 71, 13, 10, 26, 10, 0, 0, 0, 0, 0x49, 0x45, 0x4e, 0x44, 0xae, 0x42, 0x60, 0x82]
    );
}

#[test]
fn stream_round_trip() {
    let png = sample();
    let back = Png::decode(&png.as_bytes()).unwrap();
    assert_eq!(back, png);
    assert_eq!(back.header(), png.header());
    assert_eq!(codes(&back), vec!["IHDR", "ruSt", "IEND"]);
    assert_eq!(back.as_bytes(), png.as_bytes());
}

#[test]
fn stream_round_trip_of_many_shapes() {
    let mut big: Vec<u8> = Vec::new();
    for i in 0..100_000u32 {
        big.push((i * 7 % 256) as u8);
    }
    let cases = vec![
        Png::from_chunks(Vec::new()),
        Png::from_chunks(vec![chunk("IEND", &[])]),
        Png::from_chunks(vec![chunk("tEXt", b"a"), chunk("tEXt", b"a"), chunk("tEXt", b"b")]),
        Png::from_chunks(vec![chunk("IHDR", &[1, 2, 3]), chunk("IDAT", &big), chunk("IEND", &[])]),
    ];
    for png in cases {
        assert_eq!(Png::decode(&png.as_bytes()), Ok(png));
    }
}

#[test]
fn stream_decode_and_try_from_agree() {
    let bytes = sample().as_bytes();
    assert_eq!(Png::try_from(bytes.as_slice()), Png::decode(&bytes));
    assert_eq!(Png::try_from(&bytes[..20]), Png::decode(&bytes[..20]));
    assert_eq!(Png::try_from(&bytes[1..]), Err(Error::BadMagic));
}

#[test]
fn decode_of_the_signature_alone_is_an_empty_stream() {
    let png = Png::decode(&MAGIC).unwrap();
    assert_eq!(png.chunks().len(), 0);
}

#[test]
fn decode_refuses_a_wrong_signature() {
    let bytes = sample().as_bytes();
    for k in 0..8 {
        let mut wrong = bytes.clone();
        wrong[k] ^= 0x10;
        assert_eq!(Png::decode(&wrong), Err(Error::BadMagic));
    }
    assert_eq!(Png::decode(b"GIF89a, and then some more bytes"), Err(Error::BadMagic));
}

#[test]
fn decode_refuses_a_buffer_shorter_than_the_signature() {
    for n in 0..8 {
        assert_eq!(Png::decode(&MAGIC[..n]), Err(Error::BadMagic));
    }
    assert_eq!(Png::decode(&[1, 2]), Err(Error::BadMagic));
}

#[test]
fn signature_is_checked_before_any_chunk() {
    // What follows the wrong signature is truncated and has a bad checksum:
    // the answer is still BadMagic.
    let mut bytes = sample().as_bytes();
    bytes[0] = 0;
    let last = bytes.len() - 1;
    bytes[last] ^= 1;
    assert_eq!(Png::decode(&bytes), Err(Error::BadMagic));
    assert_eq!(Png::decode(&bytes[..bytes.len() - 3]), Err(Error::BadMagic));
}

#[test]
fn decode_refuses_every_cut_inside_a_chunk() {
    let bytes = sample().as_bytes();
    let first_end = 8 + 12 + 13;
    let second_end = first_end + 12 + 42;
    let third_end = second_end + 12;
    assert_eq!(third_end, bytes.len());
    for n in 8..=bytes.len() {
        let result = Png::decode(&bytes[..n]);
        if n == 8 || n == first_end || n == second_end || n == third_end {
            assert!(result.is_ok());
        } else {
            assert_eq!(result, Err(Error::TruncatedBuffer));
        }
    }
}

#[test]
fn decode_refuses_a_length_that_reaches_past_the_end() {
    let mut bytes = MAGIC.to_vec();
    let mut frame = chunk("tEXt", b"abc").as_bytes();
    frame[3] = 200;
    bytes.extend_from_slice(&frame);
    assert_eq!(Png::decode(&bytes), Err(Error::TruncatedBuffer));
    // The largest length there is.
    let mut bytes = MAGIC.to_vec();
    let mut frame = chunk("tEXt", b"abc").as_bytes();
    frame[0] = 255;
    frame[1] = 255;
    frame[2] = 255;
    frame[3] = 255;
    bytes.extend_from_slice(&frame);
    assert_eq!(Png::decode(&bytes), Err(Error::TruncatedBuffer));
}

#[test]
fn truncation_is_told_before_a_bad_type_code() {
    let mut bytes = MAGIC.to_vec();
    let odd = Chunk::new(ChunkType::from_text("1234").unwrap(), b"abc".to_vec());
    bytes.extend_from_slice(&odd.as_bytes());
    assert_eq!(Png::decode(&bytes[..bytes.len() - 1]), Err(Error::TruncatedBuffer));
    assert_eq!(Png::decode(&bytes), Err(Error::InvalidTypeCode));
}

#[test]
fn decode_refuses_a_type_code_that_is_not_letters() {
    let mut bytes = MAGIC.to_vec();
    bytes.extend_from_slice(&chunk("IHDR", &[1]).as_bytes());
    let odd = Chunk::new(ChunkType::from_text("Ru1t").unwrap(), b"abc".to_vec());
    bytes.extend_from_slice(&odd.as_bytes());
    bytes.extend_from_slice(&chunk("IEND", &[]).as_bytes());
    assert_eq!(Png::decode(&bytes), Err(Error::InvalidTypeCode));
}

#[test]
fn a_bad_type_code_is_told_before_a_bad_checksum() {
    let mut bytes = MAGIC.to_vec();
    let odd = Chunk::new(ChunkType::from_text("Ru1t").unwrap(), b"abc".to_vec());
    let mut frame = odd.as_bytes();
    let last = frame.len() - 1;
    frame[last] ^= 1;
    bytes.extend_from_slice(&frame);
    assert_eq!(Png::decode(&bytes), Err(Error::InvalidTypeCode));
}

#[test]
fn decode_refuses_a_wrong_checksum_anywhere() {
    let bytes = sample().as_bytes();
    // One byte in the payload of each chunk that has one, and one in each checksum.
    let first_end = 8 + 12 + 13;
    let second_end = first_end + 12 + 42;
    for k in [8 + 8, first_end - 1, first_end + 8 + 5, second_end - 4, bytes.len() - 1] {
        let mut wrong = bytes.clone();
        wrong[k] ^= 0x40;
        assert_eq!(Png::decode(&wrong), Err(Error::CrcMismatch));
    }
}

#[test]
fn the_first_failure_from_the_front_is_told() {
    let mut bytes = sample().as_bytes();
    // A bad checksum in the first chunk and a cut in the last.
    bytes[8 + 8] ^= 1;
    assert_eq!(Png::decode(&bytes[..bytes.len() - 2]), Err(Error::CrcMismatch));
}

#[test]
fn streams_are_equal_when_their_chunks_are() {
    assert_eq!(sample(), sample());
    let mut other = sample();
    other.append_chunk(chunk("IEND", &[]));
    assert_ne!(sample(), other);
    let swapped = Png::from_chunks(vec![
        chunk("ruSt", b"This is where your secret message will be!"),
        chunk("IHDR", &[0, 0, 0, 1, 0, 0, 0, 1, 8, 0, 0, 0, 0]),
        chunk("IEND", &[]),
    ]);
    assert_ne!(sample(), swapped);
}

#[test]
fn decode_located_agrees_with_decode() {
    let bytes = sample().as_bytes();
    assert_eq!(Png::decode_located(&bytes), Ok(sample()));
    for n in 0..bytes.len() {
        let located = Png::decode_located(&bytes[..n]);
        let plain = Png::decode(&bytes[..n]);
        match located {
            Ok(png) => assert_eq!(plain, Ok(png)),
            Err(failure) => assert_eq!(plain, Err(failure.error)),
        }
    }
}

#[test]
fn decode_located_points_at_the_signature() {
    let mut bytes = sample().as_bytes();
    bytes[3] = 0;
    let expected = DecodeFailure { error: Error::BadMagic, chunk_index: 0, offset: 0 };
    assert_eq!(Png::decode_located(&bytes), Err(expected));
    assert_eq!(Png::decode_located(&[]), Err(expected));
    assert_eq!(Png::decode_located(&MAGIC[..7]), Err(expected));
}

#[test]
fn decode_located_points_at_the_frame_that_is_cut() {
    let bytes = sample().as_bytes();
    let first_end = 8 + 12 + 13;
    let second_end = first_end + 12 + 42;
    for n in 9..first_end {
        let expected = DecodeFailure { error: Error::TruncatedBuffer, chunk_index: 0, offset: 8 };
        assert_eq!(Png::decode_located(&bytes[..n]), Err(expected));
    }
    for n in first_end + 1..second_end {
        let expected =
            DecodeFailure { error: Error::TruncatedBuffer, chunk_index: 1, offset: first_end };
        assert_eq!(Png::decode_located(&bytes[..n]), Err(expected));
    }
    for n in second_end + 1..bytes.len() {
        let expected =
            DecodeFailure { error: Error::TruncatedBuffer, chunk_index: 2, offset: second_end };
        assert_eq!(Png::decode_located(&bytes[..n]), Err(expected));
    }
}

#[test]
fn decode_located_points_at_the_frame_with_the_wrong_checksum() {
    let bytes = sample().as_bytes();
    let first_end = 8 + 12 + 13;
    let second_end = first_end + 12 + 42;
    let mut wrong = bytes.clone();
    wrong[first_end + 10] ^= 4;
    assert_eq!(
        Png::decode_located(&wrong),
        Err(DecodeFailure { error: Error::CrcMismatch, chunk_index: 1, offset: first_end })
    );
    let mut wrong = bytes.clone();
    let last = wrong.len() - 1;
    wrong[last] ^= 4;
    assert_eq!(
        Png::decode_located(&wrong),
        Err(DecodeFailure { error: Error::CrcMismatch, chunk_index: 2, offset: second_end })
    );
}

#[test]
fn decode_located_points_at_the_frame_with_the_bad_type_code() {
    let mut bytes = MAGIC.to_vec();
    bytes.extend_from_slice(&chunk("IHDR", &[1]).as_bytes());
    bytes.extend_from_slice(&chunk("tEXt", b"ab").as_bytes());
    let odd = Chunk::new(ChunkType::from_text("Ru1t").unwrap(), b"abc".to_vec());
    bytes.extend_from_slice(&odd.as_bytes());
    assert_eq!(
        Png::decode_located(&bytes),
        Err(DecodeFailure { error: Error::InvalidTypeCode, chunk_index: 2, offset: 8 + 13 + 14 })
    );
}
