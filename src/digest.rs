use crate::framing::{buffers_view, collapse_contents, frame};
use sha3::digest::{ExtendableOutput, Update, XofReader};
use sha3::Shake128;
use vstd::prelude::*;

verus! {

/// The number of bytes of a fingerprint.
pub const HASH_SIZE: usize = 16;

/// A fixed number of bytes derived from a buffer.
pub type Fingerprint = [u8; HASH_SIZE];

/// The first sixteen bytes of SHAKE128's output on `data`.
pub uninterp spec fn shake128_16(data: Seq<u8>) -> Seq<u8>;

/// Relies on sha3's `Shake128` (with digest's `Update`, `ExtendableOutput`
/// and `XofReader`): absorbs `data`, then reads sixteen bytes of output.
/// The output depends on the input bytes alone.
#[verifier::external_body]
fn shake128(data: &[u8]) -> (r: Fingerprint)
    ensures
        r@ == shake128_16(data@),
{
    let mut hasher = Shake128::default();
    hasher.update(data);
    let mut reader = hasher.finalize_xof();
    let mut out: Fingerprint = [0u8; HASH_SIZE];
    reader.read(&mut out);
    out
}

/// The fingerprint of a buffer: sixteen bytes of SHAKE128 output.
pub fn gen_hash(data: &[u8]) -> (r: Fingerprint)
    ensures
        r@ == shake128_16(data@),
        r@.len() == HASH_SIZE,
{
    let r = shake128(data);
    assert(r@.len() == HASH_SIZE);
    r
}

/// The fingerprint of a sequence of buffers: that of their framed form.
pub fn fingerprint_contents(contents: Vec<&[u8]>) -> (r: Fingerprint)
    requires
        frame(buffers_view(contents@)).len() <= usize::MAX,
    ensures
        r@ == shake128_16(frame(buffers_view(contents@))),
        r@.len() == HASH_SIZE,
{
    let data = collapse_contents(contents);
    gen_hash(data.as_slice())
}

/// Equal sequences of buffers have equal fingerprints: the fingerprint is a
/// function of the framed contents alone.
pub proof fn lemma_fingerprint_deterministic(a: Seq<Seq<u8>>, b: Seq<Seq<u8>>)
    requires
        a == b,
    ensures
        shake128_16(frame(a)) == shake128_16(frame(b)),
{
}

} // verus!
