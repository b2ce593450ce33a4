//! The bytes of a save file: optionally compressed with zstd on the way out, and
//! decompressed on the way back in.
use vstd::prelude::*;
use vstd::slice::slice_to_vec;

verus! {

/// What `zstd::stream::decode_all` gives back for the zstd frames `frame`: the decompressed
/// bytes, or `None` where it fails (the input is no valid zstd data).
pub uninterp spec fn zstd_decoded(frame: Seq<u8>) -> Option<Seq<u8>>;

/// The zstd frame that `zstd::stream::encode_all` makes of `data` at compression level
/// `level`.
pub uninterp spec fn zstd_encoded(data: Seq<u8>, level: i32) -> Seq<u8>;

/// The compression level of save files: zstd's default.
pub const SAVE_COMPRESSION_LEVEL: i32 = 0;

/// Decompresses the zstd frames `frame` with `zstd::stream::decode_all`.
///
/// Trusted: the result is what that call returns for these bytes, `None` where it returns
/// an error.
#[verifier::external_body]
fn zstd_decode(frame: &[u8]) -> (r: Option<Vec<u8>>)
    ensures
        r matches Some(v) ==> zstd_decoded(frame@) == Some(v@),
        r is None ==> zstd_decoded(frame@) is None,
{
    zstd::stream::decode_all(frame).ok()
}

/// Compresses `data` into one zstd frame at level `level` with `zstd::stream::encode_all`.
///
/// Trusted: a result is the frame that call makes of these bytes at this level, and, at
/// the levels up to 19 (those that need no extra memory to decompress), decompressing it
/// gives `data` back, zstd being lossless. Whether the call succeeds (it fails only where
/// zstd cannot set up its context) is left unsaid.
#[verifier::external_body]
fn zstd_encode(data: &[u8], level: i32) -> (r: Option<Vec<u8>>)
    ensures
        r matches Some(v) ==> v@ == zstd_encoded(data@, level),
        0 <= level <= 19 ==> (r matches Some(v) ==> zstd_decoded(v@) == Some(data@)),
{
    zstd::stream::encode_all(data, level).ok()
}

/// What the bytes `bytes` of a save file hold: decompressed where the file is compressed,
/// as they are otherwise; `None` where they are no valid zstd data.
pub open spec fn saved_contents(bytes: Seq<u8>, compressed: bool) -> Option<Seq<u8>> {
    if compressed {
        zstd_decoded(bytes)
    } else {
        Some(bytes)
    }
}

/// Reads back the contents of a save file from its bytes: decompresses them where the file
/// is compressed, and returns them as they are otherwise.
///
/// Returns `None` exactly where the file is compressed and its bytes are no valid zstd data.
pub fn decode_saved(bytes: &[u8], compressed: bool) -> (r: Option<Vec<u8>>)
    ensures
        match r {
            Some(v) => saved_contents(bytes@, compressed) == Some(v@),
            None => saved_contents(bytes@, compressed) is None,
        },
{
    if compressed {
        zstd_decode(bytes)
    } else {
        Some(slice_to_vec(bytes))
    }
}

/// The bytes to write to a save file holding `bytes`: compressed with zstd at the default
/// level where `compress` holds, `bytes` themselves otherwise.
///
/// Reading them back with [`decode_saved`] gives `bytes` again. Returns `None` only where
/// zstd fails to compress.
pub fn encode_for_save(bytes: &[u8], compress: bool) -> (r: Option<Vec<u8>>)
    ensures
        compress ==> (r matches Some(v) ==> v@ == zstd_encoded(bytes@, SAVE_COMPRESSION_LEVEL)),
        !compress ==> (r matches Some(v) && v@ == bytes@),
        r matches Some(v) ==> saved_contents(v@, compress) == Some(bytes@),
{
    if compress {
        zstd_encode(bytes, SAVE_COMPRESSION_LEVEL)
    } else {
        Some(slice_to_vec(bytes))
    }
}

} // verus!
