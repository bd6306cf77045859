use document_library::chunker::{chunk_text, chunk_text_checked, ChunkError};
use document_library::codec::{decode_vector, encode_vector, CodecError};
use document_library::hashing::content_hash;

fn text_of_len(n: usize) -> String {
    // varied content so overlapping windows are distinguishable
    let mut s = String::new();
    let alphabet = "abcdefghijklmnopqrstuvwxyz0123456789";
    let chars: Vec<char> = alphabet.chars().collect();
    for i in 0..n {
        s.push(chars[i % chars.len()]);
    }
    s
}

#[test]
fn chunking_2500_chars_gives_three_overlapping_chunks() {
    let text = text_of_len(2500);
    let chunks = chunk_text(&text, 1000, 100);
    assert_eq!(chunks.len(), 3);
    for c in &chunks {
        assert!(c.chars().count() <= 1000);
    }
    assert_eq!(chunks[0].chars().count(), 1000);
    assert_eq!(chunks[1].chars().count(), 1000);
    assert_eq!(chunks[2].chars().count(), 700);
    // consecutive chunks share exactly 100 characters at the boundary
    assert_eq!(&chunks[0][900..1000], &chunks[1][0..100]);
    assert_eq!(&chunks[1][900..1000], &chunks[2][0..100]);
}

#[test]
fn chunk_reassembly_reconstructs_text() {
    let text = text_of_len(2500);
    let chunks = chunk_text(&text, 1000, 100);
    let mut rebuilt = chunks[0].clone();
    for c in chunks.iter().skip(1) {
        rebuilt.push_str(&c[100..]);
    }
    assert_eq!(rebuilt, text);
}

#[test]
fn chunking_short_text_gives_one_chunk() {
    let chunks = chunk_text("short text", 1000, 100);
    assert_eq!(chunks.len(), 1);
    assert_eq!(chunks[0], "short text");
}

#[test]
fn chunking_empty_text_gives_no_chunks() {
    let chunks = chunk_text("", 1000, 100);
    assert_eq!(chunks.len(), 0);
}

#[test]
fn chunking_rejects_overlap_not_smaller_than_window() {
    let r = chunk_text_checked("whatever", 100, 100);
    assert_eq!(r.unwrap_err(), ChunkError::InvalidConfig);
    let r2 = chunk_text_checked("whatever", 0, 0);
    assert_eq!(r2.unwrap_err(), ChunkError::InvalidConfig);
    let ok = chunk_text_checked("whatever", 100, 99);
    assert!(ok.is_ok());
}

#[test]
fn content_hash_matches_known_md5_digests() {
    let empty: Vec<u8> = Vec::new();
    assert_eq!(content_hash(&empty), "d41d8cd98f00b204e9800998ecf8427e");
    let abc: Vec<u8> = b"abc".to_vec();
    assert_eq!(content_hash(&abc), "900150983cd24fb0d6963f7d28e17f72");
}

#[test]
fn content_hash_is_deterministic_and_content_addressed() {
    let a: Vec<u8> = b"some document body".to_vec();
    let b: Vec<u8> = b"some document body".to_vec();
    let c: Vec<u8> = b"another document body".to_vec();
    assert_eq!(content_hash(&a), content_hash(&b));
    assert_ne!(content_hash(&a), content_hash(&c));
}

#[test]
fn codec_round_trips_float_vectors_of_each_length() {
    for n in 1..=16usize {
        let floats: Vec<f32> = (0..n).map(|i| (i as f32) * 1.25 - 3.5).collect();
        let bits: Vec<u32> = floats.iter().map(|f| f.to_bits()).collect();
        let encoded = encode_vector(&bits).unwrap();
        assert_eq!(encoded.len(), 4 + 4 * n);
        let decoded = decode_vector(&encoded).unwrap();
        let back: Vec<f32> = decoded.iter().map(|b| f32::from_bits(*b)).collect();
        assert_eq!(back, floats);
    }
}

#[test]
fn codec_wire_format_is_big_endian_with_reserved_bytes() {
    let bits = vec![1.0f32.to_bits()];
    let encoded = encode_vector(&bits).unwrap();
    // dimension 1 big-endian, two reserved zero bytes, then 0x3F800000
    assert_eq!(encoded, vec![0x00, 0x01, 0x00, 0x00, 0x3F, 0x80, 0x00, 0x00]);
}

#[test]
fn codec_rejects_short_buffer() {
    let buf = vec![0u8, 1, 0];
    assert_eq!(decode_vector(&buf).unwrap_err(), CodecError::TooShort);
}

#[test]
fn codec_rejects_length_mismatch() {
    // header declares dimension 2 but only one element follows
    let buf = vec![0u8, 2, 0, 0, 0x3F, 0x80, 0x00, 0x00];
    assert_eq!(decode_vector(&buf).unwrap_err(), CodecError::LengthMismatch);
}

#[test]
fn codec_rejects_oversized_dimension() {
    let bits = vec![0u32; 65536];
    assert!(encode_vector(&bits).is_none());
}
