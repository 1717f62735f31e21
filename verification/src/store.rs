use vstd::prelude::*;
use crate::config::StorageMode;
use crypto::digest::Digest;

verus! {

/// The lower-case hex SHA-256 digest of a byte sequence, as the `crypto`
/// crate computes it.
pub uninterp spec fn sha256_hex_of(bytes: Seq<u8>) -> Seq<char>;

/// The gzip stream for a byte sequence at flate2's default compression
/// level.
pub uninterp spec fn gzip_of(bytes: Seq<u8>) -> Seq<u8>;

/// Why the store cannot encode or decode a blob.
#[derive(Clone, Copy, Debug, PartialEq, Eq, Structural)]
pub enum StoreError {
    /// The configured storage mode is declared but not implemented.
    UnsupportedMode,
    /// The blob is not a stream the configured mode can decode.
    CorruptBlob,
}

/// The blob bytes the store holds for given content under a given mode, or
/// the error for a mode that cannot encode.
pub open spec fn spec_encode(content: Seq<u8>, mode: StorageMode) -> Result<Seq<u8>, StoreError> {
    match mode {
        StorageMode::COPY => Ok(content),
        StorageMode::GZIP => Ok(gzip_of(content)),
        StorageMode::GZIPAES => Err(StoreError::UnsupportedMode),
    }
}

/// Relies on crypto::sha2::Sha256 with crypto::digest::Digest::result_str:
/// the 64-character lower-case hex digest of exactly the bytes fed in, a
/// function of those bytes alone.
#[verifier::external_body]
fn sha256_hex(bytes: &Vec<u8>) -> (r: String)
    ensures
        r@ == sha256_hex_of(bytes@),
        r@.len() == 64,
{
    let mut hasher = crypto::sha2::Sha256::new();
    hasher.input(bytes.as_slice());
    hasher.result_str()
}

/// Relies on flate2::write::GzEncoder at the default level: the gzip stream
/// for exactly the bytes written through it.  flate2 fixes the header fields
/// (zero mtime, unknown operating system), so the stream is a function of
/// the bytes alone.
#[verifier::external_body]
fn gzip_compress(bytes: &Vec<u8>) -> (r: Vec<u8>)
    ensures
        r@ == gzip_of(bytes@),
{
    let mut encoder =
        flate2::write::GzEncoder::new(Vec::new(), flate2::Compression::default());
    std::io::Write::write_all(&mut encoder, bytes.as_slice())
        .expect("writing into an in-memory buffer");
    encoder.finish().expect("finishing into an in-memory buffer")
}

/// Relies on flate2::read::GzDecoder: decoding a stream that GzEncoder
/// produced returns the bytes that were compressed; a stream it cannot
/// decode is reported as an error, mapped to `None` here.
#[verifier::external_body]
fn gzip_decompress(blob: &Vec<u8>) -> (r: Option<Vec<u8>>)
    ensures
        forall|content: Seq<u8>| blob@ == gzip_of(content) ==> r is Some && r.unwrap()@ == content,
{
    let mut decoder = flate2::read::GzDecoder::new(blob.as_slice());
    let mut out: Vec<u8> = Vec::new();
    match std::io::Read::read_to_end(&mut decoder, &mut out) {
        Ok(_) => Some(out),
        Err(_) => None,
    }
}

/// Encode file content for the content-addressed store: the store name (the
/// hex SHA-256 digest of the uncompressed bytes) together with the blob
/// bytes to write under that name.  The digest never depends on the mode:
/// equal contents get equal store names under every mode, which is what
/// deduplicates the store.  The GZIPAES mode is declared but not
/// implemented, and is rejected rather than silently treated as another
/// mode.
pub fn encode_content(content: Vec<u8>, mode: StorageMode) -> (r: Result<(String, Vec<u8>), StoreError>)
    ensures
        r is Ok <==> !(mode is GZIPAES),
        match r {
            Ok(p) => {
                &&& p.0@ == sha256_hex_of(content@)
                &&& p.0@.len() == 64
                &&& Ok::<Seq<u8>, StoreError>(p.1@) == spec_encode(content@, mode)
            },
            Err(e) => e is UnsupportedMode,
        },
{
    match mode {
        StorageMode::COPY => {
            let hash = sha256_hex(&content);
            Ok((hash, content))
        },
        StorageMode::GZIP => {
            let hash = sha256_hex(&content);
            let blob = gzip_compress(&content);
            Ok((hash, blob))
        },
        StorageMode::GZIPAES => Err(StoreError::UnsupportedMode),
    }
}

/// Decode a blob read back from the store.  Round-trip fidelity: for any
/// content whose encoding under `mode` is exactly this blob, decoding
/// returns exactly that content.
pub fn decode_content(blob: Vec<u8>, mode: StorageMode) -> (r: Result<Vec<u8>, StoreError>)
    ensures
        forall|content: Seq<u8>|
            spec_encode(content, mode) == Ok::<Seq<u8>, StoreError>(blob@)
                ==> r is Ok && r.unwrap()@ == content,
        mode is COPY ==> r is Ok && r.unwrap()@ == blob@,
        mode is GZIP && r is Err ==> r == Err::<Vec<u8>, StoreError>(StoreError::CorruptBlob),
        mode is GZIPAES <==> r == Err::<Vec<u8>, StoreError>(StoreError::UnsupportedMode),
{
    match mode {
        StorageMode::COPY => Ok(blob),
        StorageMode::GZIP => {
            match gzip_decompress(&blob) {
                Some(content) => Ok(content),
                None => Err(StoreError::CorruptBlob),
            }
        },
        StorageMode::GZIPAES => Err(StoreError::UnsupportedMode),
    }
}

} // verus!
