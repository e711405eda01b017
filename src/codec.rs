use vstd::prelude::*;
use crate::error::{AcsvDefect, AppError};
use crate::rle::{RleFrame, RleRun};

verus! {

/// Format version that this library writes and accepts.
pub const ACSV_VERSION: u8 = 1;

/// Compression level of the artifact's container.
pub const ZSTD_COMPRESSION_LEVEL: i32 = 12;

/// Length of the trailing checksum.
pub const CHECKSUM_LEN: usize = 32;

/// Length of the header: tag, version byte and frame count.
pub const HEADER_LEN: usize = 9;

/// A frame as plain values: its width and its runs, each run as the triple
/// (glyph index, colour, count).
pub type FrameValue = (u16, Seq<(u8, [u8; 3], u16)>);

pub open spec fn run_value(r: RleRun) -> (u8, [u8; 3], u16) {
    (r.ascii_idx, r.color, r.count)
}

pub open spec fn frames_view(frames: Seq<RleFrame>) -> Seq<FrameValue> {
    frames.map_values(|f: RleFrame| (f.width, f.runs@.map_values(|r: RleRun| run_value(r))))
}

/// The four-byte tag that opens every artifact: "ACSV".
pub open spec fn acsv_magic() -> Seq<u8> {
    seq![65u8, 67u8, 83u8, 86u8]
}

/// `n` as four little-endian bytes.
pub open spec fn le32(n: nat) -> Seq<u8> {
    seq![
        (n % 256) as u8,
        ((n / 256) % 256) as u8,
        ((n / 65536) % 256) as u8,
        ((n / 16777216) % 256) as u8,
    ]
}

/// The SHA-256 digest of `data`.
pub uninterp spec fn sha256_of(data: Seq<u8>) -> Seq<u8>;

/// The CBOR encoding of a frame sequence, each frame as the pair (width,
/// runs) and each run as the triple (glyph index, colour, count).
pub uninterp spec fn cbor_of(frames: Seq<FrameValue>) -> Seq<u8>;

/// The frame sequence that CBOR bytes decode to, if they hold one.
pub uninterp spec fn cbor_frames_of(bytes: Seq<u8>) -> Option<Seq<FrameValue>>;

/// The zstd stream that compresses `data` at `level`.
pub uninterp spec fn zstd_frame_of(data: Seq<u8>, level: int) -> Seq<u8>;

/// The bytes that a zstd stream decompresses to, if it is one.
pub uninterp spec fn zstd_content_of(stream: Seq<u8>) -> Option<Seq<u8>>;

/// Relies on sha2::Sha256::digest: the 32-byte SHA-256 digest of `data`.
#[verifier::external_body]
fn sha256_digest(data: &[u8]) -> (r: Vec<u8>)
    ensures
        r@ == sha256_of(data@),
        r@.len() == 32,
{
    <sha2::Sha256 as sha2::Digest>::digest(data).to_vec()
}

/// Relies on serde_cbor::to_vec on the frames as tuples: writing integer
/// tuples and sequences into a `Vec` does not fail, and what it writes,
/// serde_cbor::from_slice reads back as the same values.
#[verifier::external_body]
fn cbor_encode(frames: &Vec<RleFrame>) -> (r: Option<Vec<u8>>)
    ensures
        r is Some,
        r matches Some(b) ==> b@ == cbor_of(frames_view(frames@)),
        r matches Some(b) ==> cbor_frames_of(b@) == Some(frames_view(frames@)),
{
    let v: Vec<(u16, Vec<(u8, [u8; 3], u16)>)> = frames
        .iter()
        .map(|f| (f.width, f.runs.iter().map(|r| (r.ascii_idx, r.color, r.count)).collect()))
        .collect();
    serde_cbor::to_vec(&v).ok()
}

/// Relies on serde_cbor::from_slice into frames as tuples.
#[verifier::external_body]
fn cbor_decode(bytes: &[u8]) -> (r: Option<Vec<RleFrame>>)
    ensures
        r matches Some(fs) ==> cbor_frames_of(bytes@) == Some(frames_view(fs@)),
        r is None ==> cbor_frames_of(bytes@) is None,
{
    let v: Vec<(u16, Vec<(u8, [u8; 3], u16)>)> = serde_cbor::from_slice(bytes).ok()?;
    Some(
        v.into_iter().map(|(width, runs)| RleFrame {
            width,
            runs: runs.into_iter().map(|(ascii_idx, color, count)| RleRun { ascii_idx, color, count }).collect(),
        }).collect(),
    )
}

/// Relies on zstd::stream::encode_all: one zstd stream at `level`, written
/// into a `Vec` (which fails only when memory runs out), which
/// zstd::stream::decode_all reads back as `data`.
#[verifier::external_body]
fn zstd_compress(data: &[u8], level: i32) -> (r: Option<Vec<u8>>)
    requires
        1 <= level <= 19,
    ensures
        r is Some,
        r matches Some(c) ==> c@ == zstd_frame_of(data@, level as int),
        r matches Some(c) ==> zstd_content_of(c@) == Some(data@),
{
    zstd::stream::encode_all(data, level).ok()
}

/// Relies on zstd::stream::decode_all.
#[verifier::external_body]
fn zstd_decompress(stream: &[u8]) -> (r: Option<Vec<u8>>)
    ensures
        r matches Some(d) ==> zstd_content_of(stream@) == Some(d@),
        r is None ==> zstd_content_of(stream@) is None,
{
    zstd::stream::decode_all(stream).ok()
}

/// The checksummed part of an artifact: tag, version, frame count, payload.
pub open spec fn artifact_body(count: nat, payload: Seq<u8>) -> Seq<u8> {
    acsv_magic() + seq![ACSV_VERSION] + le32(count) + payload
}

/// The uncompressed artifact that stores `frames`.
pub open spec fn artifact_of(frames: Seq<FrameValue>) -> Seq<u8> {
    let body = artifact_body(frames.len(), cbor_of(frames));
    body + sha256_of(body)
}

/// What loading an uncompressed artifact gives: the checksum is checked
/// before anything else is trusted, then the tag, then the version, and only
/// then is the payload read.
pub open spec fn decode_spec(d: Seq<u8>) -> Result<Seq<FrameValue>, AppError> {
    let n = d.len();
    if n < HEADER_LEN + CHECKSUM_LEN {
        Err(AppError::InvalidAcsv(AcsvDefect::TooSmall(n as usize)))
    } else if d.subrange(n - CHECKSUM_LEN, n as int) != sha256_of(d.subrange(0, n - CHECKSUM_LEN)) {
        Err(AppError::AcsvIntegrity)
    } else if d.subrange(0, 4) != acsv_magic() {
        Err(AppError::InvalidAcsv(AcsvDefect::BadMagic))
    } else if d[4] != ACSV_VERSION {
        Err(AppError::UnsupportedAcsvVersion(d[4]))
    } else {
        match cbor_frames_of(d.subrange(HEADER_LEN as int, n - CHECKSUM_LEN)) {
            Some(fs) => Ok(fs),
            None => Err(AppError::CacheRead),
        }
    }
}

/// What loading a compressed artifact gives.
pub open spec fn unpack_spec(c: Seq<u8>) -> Result<Seq<FrameValue>, AppError> {
    match zstd_content_of(c) {
        Some(d) => decode_spec(d),
        None => Err(AppError::Decompression),
    }
}

/// An executable result that carries what the spec result says.
pub open spec fn agrees(r: Result<Vec<RleFrame>, AppError>, s: Result<Seq<FrameValue>, AppError>) -> bool {
    match (r, s) {
        (Ok(fs), Ok(v)) => frames_view(fs@) == v,
        (Err(e), Err(f)) => e == f,
        _ => false,
    }
}

/// Whether two byte strings are equal.
fn bytes_equal(a: &[u8], b: &[u8]) -> (r: bool)
    ensures
        r == (a@ == b@),
{
    if a.len() != b.len() {
        return false;
    }
    let mut i: usize = 0;
    while i < a.len()
        invariant
            a@.len() == b@.len(),
            i <= a@.len(),
            forall|j: int| 0 <= j < i ==> a@[j] == b@[j],
        decreases a@.len() - i,
    {
        if a[i] != b[i] {
            return false;
        }
        i = i + 1;
    }
    assert(a@ =~= b@);
    true
}

/// Serialises a frame sequence into an uncompressed artifact: header, CBOR
/// payload, and the SHA-256 digest of both. What it returns loads back as
/// the same frames.
pub fn encode_artifact(frames: &Vec<RleFrame>) -> (b: Vec<u8>)
    requires
        frames@.len() <= u32::MAX,
    ensures
        b@ == artifact_of(frames_view(frames@)),
        decode_spec(b@) == Ok::<Seq<FrameValue>, AppError>(frames_view(frames@)),
{
    let mut payload = cbor_encode(frames).unwrap();
    let ghost fv = frames_view(frames@);
    let ghost pv = payload@;
    let count: u32 = frames.len() as u32;
    let mut data: Vec<u8> = Vec::new();
    data.push(65u8);
    data.push(67u8);
    data.push(83u8);
    data.push(86u8);
    data.push(ACSV_VERSION);
    data.push((count % 256) as u8);
    data.push(((count / 256) % 256) as u8);
    data.push(((count / 65536) % 256) as u8);
    data.push(((count / 16777216) % 256) as u8);
    data.append(&mut payload);
    let ghost body = data@;
    assert(body =~= artifact_body(fv.len(), pv));
    let mut digest = sha256_digest(data.as_slice());
    let ghost dv = digest@;
    data.append(&mut digest);
    assert(data@ =~= body + dv);
    proof {
        lemma_cache_round_trip(fv, pv);
    }
    data
}

/// Loads an uncompressed artifact: verifies the checksum over everything
/// before the trailing 32 bytes, then the tag, then the version, and only
/// then reads the payload.
pub fn decode_artifact(d: &[u8]) -> (r: Result<Vec<RleFrame>, AppError>)
    ensures
        agrees(r, decode_spec(d@)),
{
    let n = d.len();
    if n < HEADER_LEN + CHECKSUM_LEN {
        return Err(AppError::InvalidAcsv(AcsvDefect::TooSmall(n)));
    }
    let body = &d[0..n - CHECKSUM_LEN];
    let stored = &d[n - CHECKSUM_LEN..n];
    let computed = sha256_digest(body);
    if !bytes_equal(stored, computed.as_slice()) {
        return Err(AppError::AcsvIntegrity);
    }
    if !(d[0] == 65u8 && d[1] == 67u8 && d[2] == 83u8 && d[3] == 86u8) {
        proof {
            if d@.subrange(0, 4) == acsv_magic() {
                assert(d@[0] == d@.subrange(0, 4)[0]);
                assert(d@[1] == d@.subrange(0, 4)[1]);
                assert(d@[2] == d@.subrange(0, 4)[2]);
                assert(d@[3] == d@.subrange(0, 4)[3]);
            }
        }
        return Err(AppError::InvalidAcsv(AcsvDefect::BadMagic));
    }
    assert(d@.subrange(0, 4) =~= acsv_magic());
    if d[4] != ACSV_VERSION {
        return Err(AppError::UnsupportedAcsvVersion(d[4]));
    }
    let payload = &d[HEADER_LEN..n - CHECKSUM_LEN];
    match cbor_decode(payload) {
        Some(fs) => Ok(fs),
        None => Err(AppError::CacheRead),
    }
}

} // verus!

verus! {

/// Serialises a frame sequence into a compressed artifact: the uncompressed
/// artifact of `encode_artifact`, compressed as one zstd stream. What it
/// returns loads back as the same frames.
pub fn pack_frames(frames: &Vec<RleFrame>) -> (c: Vec<u8>)
    requires
        frames@.len() <= u32::MAX,
    ensures
        c@ == zstd_frame_of(artifact_of(frames_view(frames@)), ZSTD_COMPRESSION_LEVEL as int),
        zstd_content_of(c@) == Some(artifact_of(frames_view(frames@))),
        unpack_spec(c@) == Ok::<Seq<FrameValue>, AppError>(frames_view(frames@)),
{
    let data = encode_artifact(frames);
    zstd_compress(data.as_slice(), ZSTD_COMPRESSION_LEVEL).unwrap()
}

/// Loads a compressed artifact: decompresses it whole, then decodes it as
/// `decode_artifact` does.
pub fn unpack_frames(c: &[u8]) -> (r: Result<Vec<RleFrame>, AppError>)
    ensures
        agrees(r, unpack_spec(c@)),
{
    match zstd_decompress(c) {
        Some(d) => decode_artifact(d.as_slice()),
        None => Err(AppError::Decompression),
    }
}

/// The frame count that the header of an uncompressed artifact records.
pub open spec fn header_count(d: Seq<u8>) -> nat {
    (d[5] + 256 * d[6] + 65536 * d[7] + 16777216 * d[8]) as nat
}

/// Loads a compressed artifact as `unpack_frames` does, and also returns the
/// frame count that its header records, so that a caller can tell when it
/// disagrees with the frames found in the payload.
pub fn unpack_frames_counted(c: &[u8]) -> (r: Result<(Vec<RleFrame>, u32), AppError>)
    ensures
        match r {
            Ok((fs, n)) => unpack_spec(c@) == Ok::<Seq<FrameValue>, AppError>(frames_view(fs@))
                && n as nat == header_count(zstd_content_of(c@)->Some_0),
            Err(e) => unpack_spec(c@) == Err::<Seq<FrameValue>, AppError>(e),
        },
{
    match zstd_decompress(c) {
        Some(d) => {
            match decode_artifact(d.as_slice()) {
                Ok(fs) => {
                    let n: u32 = (d[5] as u32) + 256 * (d[6] as u32) + 65536 * (d[7] as u32)
                        + 16777216 * (d[8] as u32);
                    Ok((fs, n))
                },
                Err(e) => Err(e),
            }
        },
        None => Err(AppError::Decompression),
    }
}

/// Saving then loading gives back the frames: an artifact built from a
/// payload that decodes to `frames`, with the digest of its body appended,
/// loads as exactly `frames`.
pub proof fn lemma_cache_round_trip(frames: Seq<FrameValue>, payload: Seq<u8>)
    requires
        frames.len() <= u32::MAX,
        cbor_frames_of(payload) == Some(frames),
        sha256_of(artifact_body(frames.len(), payload)).len() == CHECKSUM_LEN,
    ensures
        decode_spec(
            artifact_body(frames.len(), payload) + sha256_of(artifact_body(frames.len(), payload)),
        ) == Ok::<Seq<FrameValue>, AppError>(frames),
{
    let body = artifact_body(frames.len(), payload);
    let d = body + sha256_of(body);
    let n = d.len();
    assert(d.subrange(0, n - 32) =~= body);
    assert(d.subrange(n - 32, n as int) =~= sha256_of(body));
    assert(d.subrange(0, 4) =~= acsv_magic());
    assert(d.subrange(HEADER_LEN as int, n - CHECKSUM_LEN) =~= payload);
}

/// Changing any one byte of a saved artifact makes loading fail with an
/// integrity error: a byte of the stored checksum no longer matches the
/// digest, and a byte before it changes the digest (barring a SHA-256
/// collision, which `requires` excludes).
pub proof fn lemma_integrity_detection(d: Seq<u8>, i: int, v: u8)
    requires
        decode_spec(d) is Ok,
        0 <= i < d.len(),
        v != d[i],
        i < d.len() - CHECKSUM_LEN ==> sha256_of(d.update(i, v).subrange(0, d.len() - CHECKSUM_LEN))
            != sha256_of(d.subrange(0, d.len() - CHECKSUM_LEN)),
    ensures
        decode_spec(d.update(i, v)) == Err::<Seq<FrameValue>, AppError>(AppError::AcsvIntegrity),
{
    let n = d.len();
    let e = d.update(i, v);
    let k = n - CHECKSUM_LEN;
    if i >= k {
        assert(e.subrange(0, k) =~= d.subrange(0, k));
        assert(e.subrange(k, n as int)[i - k] == v);
        assert(d.subrange(k, n as int)[i - k] == d[i]);
    } else {
        assert(e.subrange(k, n as int) =~= d.subrange(k, n as int));
    }
}

/// An intact artifact whose version byte is not `ACSV_VERSION` fails with
/// the version it carries, whatever its payload holds: the payload is never
/// read.
pub proof fn lemma_version_gate(count: nat, payload: Seq<u8>, version: u8)
    requires
        version != ACSV_VERSION,
    ensures
        ({
            let body = (acsv_magic() + seq![version] + le32(count) + payload);
            sha256_of(body).len() == CHECKSUM_LEN ==> decode_spec(body + sha256_of(body))
                == Err::<Seq<FrameValue>, AppError>(AppError::UnsupportedAcsvVersion(version))
        }),
{
    let body = acsv_magic() + seq![version] + le32(count) + payload;
    let d = body + sha256_of(body);
    let n = d.len();
    if sha256_of(body).len() == CHECKSUM_LEN {
        assert(d.subrange(0, n - 32) =~= body);
        assert(d.subrange(n - 32, n as int) =~= sha256_of(body));
        assert(d.subrange(0, 4) =~= acsv_magic());
        assert(d[4] == version);
    }
}

} // verus!
