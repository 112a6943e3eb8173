use crate::digest::{Fingerprint, HASH_SIZE};
use crate::error::Error;
use crate::meta::Meta;
use vstd::prelude::*;

verus! {

/// The most bytes the encoder takes at the error-correction strength used
/// for page codes.
pub const MAX_PAYLOAD: usize = 20;

/// The payload of one page: the fingerprint, then set id and page number.
pub open spec fn payload_bytes(hash: Seq<u8>, m: (u8, u8)) -> Seq<u8> {
    hash + seq![m.0, m.1]
}

/// Builds the payload of one page, refusing one longer than `MAX_PAYLOAD`.
pub fn build_payload(hash: &Fingerprint, m: &Meta) -> (r: Result<Vec<u8>, Error>)
    ensures
        payload_bytes(hash@, m@).len() > MAX_PAYLOAD ==> r == Err::<Vec<u8>, Error>(
            Error::PayloadTooLarge,
        ),
        payload_bytes(hash@, m@).len() <= MAX_PAYLOAD ==> r is Ok && r->Ok_0@ == payload_bytes(
            hash@,
            m@,
        ),
        r is Ok ==> r->Ok_0@.len() == HASH_SIZE + 2 && r->Ok_0@.len() <= MAX_PAYLOAD,
{
    assert(hash@.len() == HASH_SIZE);
    let mut data: Vec<u8> = Vec::new();
    let mut i: usize = 0;
    while i < HASH_SIZE
        invariant
            i <= HASH_SIZE,
            hash@.len() == HASH_SIZE,
            data@ == hash@.take(i as int),
        decreases HASH_SIZE - i,
    {
        data.push(hash[i]);
        assert(hash@.take(i as int + 1) =~= hash@.take(i as int).push(hash@[i as int]));
        i = i + 1;
    }
    assert(hash@.take(HASH_SIZE as int) =~= hash@);
    data.push(m.exam_id());
    data.push(m.page());
    assert(data@ =~= payload_bytes(hash@, m@));
    if data.len() > MAX_PAYLOAD {
        Err(Error::PayloadTooLarge)
    } else {
        Ok(data)
    }
}

/// Every payload that `build_payload` returns fits the encoder, and with a
/// sixteen-byte fingerprint it is eighteen bytes long.
pub proof fn lemma_payload_bound(hash: Seq<u8>, m: (u8, u8))
    requires
        hash.len() == HASH_SIZE,
    ensures
        payload_bytes(hash, m).len() == 18,
        payload_bytes(hash, m).len() <= MAX_PAYLOAD,
{
}

} // verus!
