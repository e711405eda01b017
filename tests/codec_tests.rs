use ascii_rs::codec::{
    decode_artifact, encode_artifact, pack_frames, unpack_frames, unpack_frames_counted, ACSV_VERSION,
};
use ascii_rs::error::{AcsvDefect, AppError};
use ascii_rs::rle::{RleFrame, RleRun};
use sha2::Digest;

fn sample_frames() -> Vec<RleFrame> {
    vec![
        RleFrame {
            width: 3,
            runs: vec![
                RleRun { ascii_idx: 0, color: [0, 0, 0], count: 2 },
                RleRun { ascii_idx: 5, color: [10, 20, 30], count: 1 },
                RleRun { ascii_idx: 92, color: [255, 255, 255], count: 3 },
            ],
        },
        RleFrame { width: 1, runs: vec![RleRun { ascii_idx: 7, color: [1, 2, 3], count: 1 }] },
    ]
}

fn same(a: &[RleFrame], b: &[RleFrame]) -> bool {
    a.len() == b.len()
        && a.iter().zip(b.iter()).all(|(x, y)| {
            x.width == y.width
                && x.runs.len() == y.runs.len()
                && x.runs.iter().zip(y.runs.iter()).all(|(r, s)| {
                    r.ascii_idx == s.ascii_idx && r.color == s.color && r.count == s.count
                })
        })
}

fn with_checksum(mut body: Vec<u8>) -> Vec<u8> {
    let digest = sha2::Sha256::digest(&body);
    body.extend_from_slice(&digest);
    body
}

#[test]
fn cache_round_trip_compressed() {
    let frames = sample_frames();
    let packed = pack_frames(&frames);
    let loaded = unpack_frames(&packed).unwrap();
    assert!(same(&frames, &loaded));
}

#[test]
fn cache_round_trip_uncompressed() {
    let frames = sample_frames();
    let bytes = encode_artifact(&frames);
    assert_eq!(&bytes[0..4], b"ACSV");
    assert_eq!(bytes[4], ACSV_VERSION);
    assert_eq!(&bytes[5..9], &2u32.to_le_bytes());
    let digest = sha2::Sha256::digest(&bytes[..bytes.len() - 32]);
    assert_eq!(&bytes[bytes.len() - 32..], digest.as_slice());
    let loaded = decode_artifact(&bytes).unwrap();
    assert!(same(&frames, &loaded));
}

#[test]
fn compressed_artifact_is_not_the_plain_one() {
    let frames = sample_frames();
    let plain = encode_artifact(&frames);
    let packed = pack_frames(&frames);
    assert_ne!(plain, packed);
    assert_eq!(decode_artifact(&packed).unwrap_err(), AppError::AcsvIntegrity);
}

#[test]
fn any_flipped_byte_fails_integrity() {
    let bytes = encode_artifact(&sample_frames());
    for i in 0..bytes.len() {
        let mut bad = bytes.clone();
        bad[i] ^= 0x01;
        assert_eq!(decode_artifact(&bad).unwrap_err(), AppError::AcsvIntegrity, "byte {}", i);
    }
}

#[test]
fn unsupported_version_fails_before_payload() {
    let mut body = b"ACSV".to_vec();
    body.push(2);
    body.extend_from_slice(&1u32.to_le_bytes());
    body.extend_from_slice(&[0xff, 0xfe, 0x00]);
    let artifact = with_checksum(body);
    assert_eq!(decode_artifact(&artifact).unwrap_err(), AppError::UnsupportedAcsvVersion(2));
}

#[test]
fn bad_magic_is_invalid() {
    let mut body = b"ACSX".to_vec();
    body.push(ACSV_VERSION);
    body.extend_from_slice(&0u32.to_le_bytes());
    body.push(0x80);
    let artifact = with_checksum(body);
    assert_eq!(decode_artifact(&artifact).unwrap_err(), AppError::InvalidAcsv(AcsvDefect::BadMagic));
}

#[test]
fn malformed_payload_is_a_read_error() {
    let mut body = b"ACSV".to_vec();
    body.push(ACSV_VERSION);
    body.extend_from_slice(&1u32.to_le_bytes());
    body.extend_from_slice(&[0xff, 0xff]);
    let artifact = with_checksum(body);
    assert_eq!(decode_artifact(&artifact).unwrap_err(), AppError::CacheRead);
}

#[test]
fn too_small_artifact() {
    let short = vec![0u8; 40];
    assert_eq!(
        decode_artifact(&short).unwrap_err(),
        AppError::InvalidAcsv(AcsvDefect::TooSmall(40))
    );
}

#[test]
fn garbage_is_not_a_compressed_stream() {
    assert_eq!(unpack_frames(&[1, 2, 3, 4, 5]).unwrap_err(), AppError::Decompression);
}

#[test]
fn empty_sequence_round_trip() {
    let frames: Vec<RleFrame> = Vec::new();
    let packed = pack_frames(&frames);
    assert!(unpack_frames(&packed).unwrap().is_empty());
}

#[test]
fn header_count_is_reported() {
    let frames = sample_frames();
    let (loaded, count) = unpack_frames_counted(&pack_frames(&frames)).unwrap();
    assert_eq!(count, 2);
    assert!(same(&frames, &loaded));
    assert_eq!(unpack_frames_counted(&[9, 9]).unwrap_err(), AppError::Decompression);
}

#[test]
fn header_count_mismatch_still_loads() {
    let frames = sample_frames();
    let mut bytes = encode_artifact(&frames);
    let n = bytes.len();
    bytes.truncate(n - 32);
    bytes[5] = 7;
    let artifact = with_checksum(bytes);
    assert_eq!(artifact[4], 1);
    assert!(same(&frames, &decode_artifact(&artifact).unwrap()));
}
