use chunk_digest::digests::{check_digests, digest_lines, num_chunks_exec};
use chunk_digest::repair::{extract_chunk, fix_chunk, ChunkError};
use chunk_digest::sha256::chunk_digest;

const ABC_DIGEST: &str = "ba7816bf8f01cfea414140de5dae2223b00361a396177a9cb410ff61f20015ad";
const EMPTY_DIGEST: &str = "e3b0c44298fc1c149afbf4c8996fb92427ae41e4649b934ca495991b7852b855";

fn sample_data(len: usize) -> Vec<u8> {
    let mut data = Vec::with_capacity(len);
    for i in 0..len {
        data.push((i % 251) as u8);
    }
    data
}

#[test]
fn chunk_digest_known_vectors() {
    assert_eq!(chunk_digest(b"abc"), ABC_DIGEST);
    assert_eq!(chunk_digest(b""), EMPTY_DIGEST);
}

#[test]
fn digest_line_is_64_lowercase_hex_chars() {
    let line = chunk_digest(b"anything at all");
    assert_eq!(line.len(), 64);
    assert!(line.chars().all(|c| c.is_ascii_hexdigit() && !c.is_ascii_uppercase()));
}

#[test]
fn num_chunks_matches_ceiling() {
    assert_eq!(num_chunks_exec(0, 1024), 0);
    assert_eq!(num_chunks_exec(1, 1024), 1);
    assert_eq!(num_chunks_exec(1024, 1024), 1);
    assert_eq!(num_chunks_exec(1025, 1024), 2);
    assert_eq!(num_chunks_exec(2500, 1024), 3);
    assert_eq!(num_chunks_exec(5, 0), 0);
}

#[test]
fn writer_emits_one_line_per_chunk() {
    let data = sample_data(2500);
    let lines = digest_lines(&data, 1024);
    assert_eq!(lines.len(), 3);
    assert_eq!(lines[0], chunk_digest(&data[0..1024]));
    assert_eq!(lines[1], chunk_digest(&data[1024..2048]));
    assert_eq!(lines[2], chunk_digest(&data[2048..2500]));
}

#[test]
fn writer_short_last_chunk_covers_remainder() {
    let data = sample_data(10);
    let lines = digest_lines(&data, 4);
    assert_eq!(lines.len(), 3);
    assert_eq!(lines[2], chunk_digest(&data[8..10]));
}

#[test]
fn writer_on_empty_data_emits_no_lines() {
    let data: Vec<u8> = Vec::new();
    assert!(digest_lines(&data, 1024).is_empty());
}

#[test]
fn round_trip_reports_no_mismatch() {
    let data = sample_data(2500);
    let lines = digest_lines(&data, 1024);
    assert!(check_digests(&data, &lines, 1024).is_empty());

    let exact = sample_data(4096);
    let exact_lines = digest_lines(&exact, 1024);
    assert!(check_digests(&exact, &exact_lines, 1024).is_empty());
}

#[test]
fn corrupting_one_chunk_flags_only_that_index() {
    let lines = digest_lines(&sample_data(2500), 1024);
    let mut corrupt = sample_data(2500);
    corrupt[1500] ^= 0xff;
    assert_eq!(check_digests(&corrupt, &lines, 1024), vec![1]);
}

#[test]
fn checker_stops_at_shorter_side() {
    let data = sample_data(2500);
    let mut lines = digest_lines(&data, 1024);

    // more lines than chunks: the extra line is never examined
    lines.push("not a digest at all".to_string());
    assert!(check_digests(&data, &lines, 1024).is_empty());

    // fewer lines than chunks: trailing chunks are never examined
    lines.truncate(2);
    assert!(check_digests(&data, &lines, 1024).is_empty());
}

#[test]
fn extract_returns_exact_chunk() {
    let data = sample_data(2500);
    let chunk = extract_chunk(&data, 1, 1024).unwrap();
    assert_eq!(chunk, data[1024..2048].to_vec());
}

#[test]
fn extract_past_end_is_short_read() {
    let data = sample_data(2500);
    assert_eq!(extract_chunk(&data, 2, 1024), Err(ChunkError::ShortRead));
    assert_eq!(extract_chunk(&data, 3, 1024), Err(ChunkError::ShortRead));
}

#[test]
fn extract_with_huge_index_is_short_read() {
    let data = sample_data(8);
    assert_eq!(extract_chunk(&data, usize::MAX, 2), Err(ChunkError::ShortRead));
}

#[test]
fn concatenated_chunks_reconstruct_aligned_data() {
    let data = sample_data(4096);
    let mut rebuilt: Vec<u8> = Vec::new();
    for i in 0..4 {
        rebuilt.extend(extract_chunk(&data, i, 1024).unwrap());
    }
    assert_eq!(rebuilt, data);
}

#[test]
fn fix_overwrites_exactly_one_chunk_range() {
    let data = sample_data(10);
    let donor = vec![0xaau8; 4];
    let fixed = fix_chunk(&data, &donor, 1, 4).unwrap();
    assert_eq!(&fixed[0..4], &data[0..4]);
    assert_eq!(&fixed[4..8], &donor[..]);
    assert_eq!(&fixed[8..10], &data[8..10]);
}

#[test]
fn fix_with_extracted_chunk_is_identity() {
    let data = sample_data(2500);
    let chunk = extract_chunk(&data, 1, 1024).unwrap();
    assert_eq!(fix_chunk(&data, &chunk, 1, 1024).unwrap(), data);
}

#[test]
fn fix_beyond_end_zero_fills_the_gap() {
    let data = sample_data(4);
    let donor = vec![0x11u8, 0x22];
    let fixed = fix_chunk(&data, &donor, 3, 2).unwrap();
    assert_eq!(fixed, vec![data[0], data[1], data[2], data[3], 0, 0, 0x11, 0x22]);
}

#[test]
fn fix_with_short_donor_is_short_read() {
    let data = sample_data(10);
    let donor = vec![1u8, 2, 3];
    assert_eq!(fix_chunk(&data, &donor, 0, 4), Err(ChunkError::ShortRead));
}

#[test]
fn fix_with_unaddressable_offset_is_overflow() {
    let data = sample_data(4);
    let donor = vec![0u8; 2];
    assert_eq!(fix_chunk(&data, &donor, usize::MAX, 2), Err(ChunkError::OffsetOverflow));
}

#[test]
fn scenario_2500_bytes_chunk_size_1024() {
    let data = sample_data(2500);
    let lines = digest_lines(&data, 1024);
    assert_eq!(lines.len(), 3);

    assert_eq!(extract_chunk(&data, 0, 1024).unwrap().len(), 1024);
    assert_eq!(extract_chunk(&data, 1, 1024).unwrap().len(), 1024);
    assert_eq!(lines[2], chunk_digest(&data[2048..2500]));
    assert_eq!(2500 - 2048, 452);
    assert_eq!(extract_chunk(&data, 2, 1024), Err(ChunkError::ShortRead));
}
