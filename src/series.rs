use crate::digest::{fingerprint_contents, shake128_16, Fingerprint, HASH_SIZE};
use crate::error::Error;
use crate::framing::{buffers_view, frame};
use crate::meta::{meta_text, pages_up_to, Meta, MetaIter};
use crate::payload::{build_payload, payload_bytes, MAX_PAYLOAD};
use qrcode::types::QrError;
use qrcode::{EcLevel, QrCode};
use vstd::prelude::*;

verus! {

#[verifier::external_type_specification]
#[verifier::external_body]
pub struct ExQrCode(QrCode);

#[verifier::external_type_specification]
#[verifier::external_body]
pub struct ExQrError(QrError);

/// How much damage an encoded symbol can recover from.
#[derive(Clone, Copy, Debug, PartialEq, Eq, Structural)]
pub enum EcStrength {
    Low,
    Medium,
    Quartile,
    High,
}

/// The error-correction strength of page codes; `MAX_PAYLOAD` is what the
/// encoder holds safely at this strength.
pub const PAGE_STRENGTH: EcStrength = EcStrength::Quartile;

/// Relies on qrcode's `QrCode::with_error_correction_level`: encodes the
/// bytes at the given error-correction level in the smallest symbol that
/// holds them, or reports why it cannot. Its first try is version 9, which
/// at level Q holds far more than `MAX_PAYLOAD` bytes, so such a payload is
/// always encoded.
#[verifier::external_body]
fn encode_qr(data: &[u8], level: EcStrength) -> (r: Result<QrCode, QrError>)
    ensures
        data@.len() <= MAX_PAYLOAD && level == EcStrength::Quartile ==> r is Ok,
{
    let ec = match level {
        EcStrength::Low => EcLevel::L,
        EcStrength::Medium => EcLevel::M,
        EcStrength::Quartile => EcLevel::Q,
        EcStrength::High => EcLevel::H,
    };
    QrCode::with_error_correction_level(data, ec)
}

/// Encodes a payload as a QR code at the page strength. A payload longer
/// than `MAX_PAYLOAD` is refused before the encoder is asked; any other is
/// encoded.
pub fn encode_payload(data: &[u8]) -> (r: Result<QrCode, Error>)
    ensures
        data@.len() > MAX_PAYLOAD ==> r == Err::<QrCode, Error>(Error::PayloadTooLarge),
        data@.len() <= MAX_PAYLOAD ==> r is Ok,
{
    if data.len() > MAX_PAYLOAD {
        return Err(Error::PayloadTooLarge);
    }
    encoding_outcome(encode_qr(data, PAGE_STRENGTH))
}

/// What the encoder's answer means for a page: its symbol, or
/// `EncodingFailed` whatever the encoder's reason.
pub fn encoding_outcome(encoded: Result<QrCode, QrError>) -> (r: Result<QrCode, Error>)
    ensures
        encoded is Ok ==> r == Ok::<QrCode, Error>(encoded->Ok_0),
        encoded is Err ==> r == Err::<QrCode, Error>(Error::EncodingFailed),
{
    match encoded {
        Ok(code) => Ok(code),
        Err(_) => Err(Error::EncodingFailed),
    }
}

/// One page of a set, ready to be encoded: its metadata, its output name and
/// its payload.
pub struct QrPage {
    pub meta: Meta,
    pub name: String,
    pub payload: Vec<u8>,
}

/// The pages of a set still to be produced, with the fingerprint that all of
/// them carry and the prefix of their names.
pub struct QrSeries {
    hash: Fingerprint,
    pages: MetaIter,
    prefix: String,
}

impl QrSeries {
    /// The fingerprint that every page carries.
    pub closed spec fn hash_view(&self) -> Seq<u8> {
        self.hash@
    }

    /// The metadata of the pages still to come, in order.
    pub closed spec fn pages_view(&self) -> Seq<(u8, u8)> {
        self.pages@
    }

    /// The prefix of every page's name.
    pub closed spec fn prefix_view(&self) -> Seq<char> {
        self.prefix@
    }

    /// Produces the next page: its name is the prefix followed by
    /// `"{set id}-{page}"`, its payload the fingerprint followed by set id and
    /// page. Once all pages are out, nothing is produced.
    pub fn next_page(&mut self) -> (r: Option<Result<QrPage, Error>>)
        ensures
            final(self).hash_view() == old(self).hash_view(),
            final(self).prefix_view() == old(self).prefix_view(),
            old(self).pages_view().len() == 0 ==> r is None && final(self).pages_view()
                == old(self).pages_view(),
            old(self).pages_view().len() > 0 ==> ({
                let m = old(self).pages_view()[0];
                &&& r is Some
                &&& r->Some_0 is Ok
                &&& r->Some_0->Ok_0.meta@ == m
                &&& r->Some_0->Ok_0.payload@ == payload_bytes(old(self).hash_view(), m)
                &&& r->Some_0->Ok_0.name@ == old(self).prefix_view() + meta_text(m)
                &&& final(self).pages_view() == old(self).pages_view().drop_first()
            }),
    {
        match self.pages.next() {
            None => None,
            Some(m) => {
                assert(self.hash@.len() == HASH_SIZE);
                match build_payload(&self.hash, &m) {
                    Err(e) => Some(Err(e)),
                    Ok(payload) => {
                        let mut name = self.prefix.clone();
                        let text = m.to_string();
                        name.append(text.as_str());
                        Some(Ok(QrPage { meta: m, name, payload }))
                    },
                }
            },
        }
    }
}

impl QrSeries {
    /// Takes the outcome of encoding and writing the page last produced. A
    /// failure ends the series: no page is produced after it, and the error
    /// is handed back as it came. Pages written before it stay written. A
    /// success changes nothing.
    pub fn after_page(&mut self, outcome: Result<(), Error>) -> (r: Option<Error>)
        ensures
            final(self).hash_view() == old(self).hash_view(),
            final(self).prefix_view() == old(self).prefix_view(),
            outcome is Ok ==> r is None && final(self).pages_view() == old(self).pages_view(),
            outcome is Err ==> r == Some(outcome->Err_0) && final(self).pages_view().len() == 0,
    {
        match outcome {
            Ok(()) => None,
            Err(e) => {
                self.pages.finish();
                Some(e)
            },
        }
    }
}

/// Every page of a set carries a payload of the fingerprint, set id and page
/// number, eighteen bytes long, within what the encoder takes.
pub proof fn lemma_series_payloads_fit(hash: Seq<u8>, set_id: u8, stop: u8)
    requires
        hash.len() == HASH_SIZE,
    ensures
        forall|i: int|
            0 <= i < stop ==> {
                let p = #[trigger] payload_bytes(hash, pages_up_to(set_id, stop)[i]);
                &&& p == hash + seq![set_id, (i + 1) as u8]
                &&& p.len() == HASH_SIZE + 2
                &&& p.len() <= MAX_PAYLOAD
            },
{
}

/// Prepares the QR codes of every page of a set: fingerprints the contents
/// once, and yields pages 1 up to the page of `meta`, named after `name`.
pub fn mul_qr(contents: Vec<&[u8]>, meta: Meta, name: &str) -> (r: QrSeries)
    requires
        frame(buffers_view(contents@)).len() <= usize::MAX,
    ensures
        r.hash_view() == shake128_16(frame(buffers_view(contents@))),
        r.hash_view().len() == HASH_SIZE,
        r.pages_view() == pages_up_to(meta@.0, meta@.1),
        r.prefix_view() == name@,
{
    let hash = fingerprint_contents(contents);
    QrSeries { hash, pages: meta.into_iter(), prefix: String::from_str(name) }
}

} // verus!
