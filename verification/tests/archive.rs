use martin::archive::{
    frame_archive, is_lz4_decodable, read_archive, read_entry, ArchiveEntry, ArchiveError, LZ4_FF_RUN_LIMIT,
};

fn entry(name: &str, data: &[u8]) -> ArchiveEntry {
    ArchiveEntry {
        name: name.to_string(),
        data: data.to_vec(),
    }
}

#[test]
fn archive_round_trips_names_and_bytes() {
    let big: Vec<u8> = (0..5000u32).map(|i| (i % 7) as u8).collect();
    let files = vec![
        entry("score.txt", b"bpm 120\n"),
        entry("dog.ply", &big),
        entry("empty.bin", b""),
        entry("héllo ✓.png", &[0, 255, 1, 254]),
    ];
    let bytes = frame_archive(&files);
    assert_eq!(&bytes[0..4], &4u32.to_le_bytes());
    let back = read_archive(&bytes).expect("a framed archive reads back");
    assert_eq!(back.len(), files.len());
    for (a, b) in back.iter().zip(files.iter()) {
        assert_eq!(a.name, b.name);
        assert_eq!(a.data, b.data);
    }
}

#[test]
fn archive_layout_is_length_prefixed() {
    let bytes = frame_archive(&[entry("a", b"xyz")]);
    assert_eq!(&bytes[0..4], &[1, 0, 0, 0]); // one entry
    assert_eq!(&bytes[4..8], &[1, 0, 0, 0]); // name length
    assert_eq!(bytes[8], b'a');
    let data_len = u32::from_le_bytes([bytes[9], bytes[10], bytes[11], bytes[12]]) as usize;
    assert_eq!(bytes.len(), 13 + data_len);
    // the payload is the raw size, little-endian, then the lz4 block
    assert_eq!(&bytes[13..17], &[3, 0, 0, 0]);
    let (e, next) = read_entry(&bytes, 4).expect("entry reads");
    assert_eq!(e.name, "a");
    assert_eq!(e.data, b"xyz");
    assert_eq!(next, bytes.len());
}

#[test]
fn empty_archive_has_no_entries() {
    let bytes = frame_archive(&[]);
    assert_eq!(bytes, vec![0, 0, 0, 0]);
    assert!(read_archive(&bytes).unwrap().is_empty());
}

#[test]
fn truncated_archive_is_reported() {
    assert_eq!(read_archive(&[1, 0]).unwrap_err(), ArchiveError::Truncated);
    let bytes = frame_archive(&[entry("a.txt", b"hello hello hello")]);
    for cut in [3usize, 4, 7, 9, 12, 15, bytes.len() - 1] {
        assert_eq!(
            read_archive(&bytes[..cut]).unwrap_err(),
            ArchiveError::Truncated,
            "cut at {cut}"
        );
    }
    // more entries promised than present
    let mut more = bytes.clone();
    more[0] = 2;
    assert_eq!(read_archive(&more).unwrap_err(), ArchiveError::Truncated);
}

#[test]
fn bad_name_is_reported() {
    let mut bytes = frame_archive(&[entry("ab", b"1")]);
    bytes[8] = 0xff; // not UTF-8
    assert_eq!(read_archive(&bytes).unwrap_err(), ArchiveError::BadName);
}

#[test]
fn bad_payload_is_reported() {
    // one entry "a" with an empty payload: too short for the size prefix
    let bytes = vec![1, 0, 0, 0, 1, 0, 0, 0, b'a', 0, 0, 0, 0];
    assert_eq!(read_archive(&bytes).unwrap_err(), ArchiveError::Decompress);
}

#[test]
fn trailing_bytes_are_ignored() {
    let mut bytes = frame_archive(&[entry("k", b"v")]);
    bytes.extend_from_slice(&[9, 9, 9]);
    let back = read_archive(&bytes).unwrap();
    assert_eq!(back.len(), 1);
    assert_eq!(back[0].data, b"v");
}

#[test]
fn overlong_ff_runs_are_refused_not_decoded() {
    // a payload with a literal-length run of 0xFF bytes long enough to overflow the decoder's sum
    let mut payload = vec![0u8, 0, 0, 0, 0xF0];
    payload.extend(std::iter::repeat(0xFFu8).take(LZ4_FF_RUN_LIMIT));
    assert!(!is_lz4_decodable(&payload));
    let mut bytes = vec![1, 0, 0, 0, 1, 0, 0, 0, b'a'];
    bytes.extend_from_slice(&(payload.len() as u32).to_le_bytes());
    bytes.extend_from_slice(&payload);
    assert_eq!(read_archive(&bytes).unwrap_err(), ArchiveError::Decompress);
    // one byte shorter goes to the decoder, which reports the missing length terminator
    payload.pop();
    assert!(is_lz4_decodable(&payload));
    let mut bytes = vec![1, 0, 0, 0, 1, 0, 0, 0, b'a'];
    bytes.extend_from_slice(&(payload.len() as u32).to_le_bytes());
    bytes.extend_from_slice(&payload);
    assert_eq!(read_archive(&bytes).unwrap_err(), ArchiveError::Decompress);
    assert!(is_lz4_decodable(&[]));
    assert!(is_lz4_decodable(&[0xFF; 3]));
}
