use exam_qr::{
    build_payload, collapse_contents, encode_payload, encoding_outcome, fingerprint_contents,
    gen_hash, mul_qr,
    Error, Meta, MAX_PAYLOAD,
};

fn framed(parts: &[&[u8]], count: u8) -> Vec<u8> {
    let mut v = Vec::new();
    for p in parts {
        v.push(b'<');
        v.extend_from_slice(p);
        v.push(b'>');
    }
    v.extend_from_slice(&[0, 0, 0, 0, 0, 0, 0, count]);
    v
}

#[test]
fn frame_two_files_exact() {
    let r = collapse_contents(vec![b"file1".as_slice(), b"file2".as_slice()]);
    assert_eq!(r, framed(&[b"file1", b"file2"], 2));
}

#[test]
fn frame_empty_sequence_is_count_only() {
    let r = collapse_contents(vec![]);
    assert_eq!(r, vec![0u8; 8]);
}

#[test]
fn frame_single_empty_buffer() {
    let r = collapse_contents(vec![b"".as_slice()]);
    assert_eq!(r, vec![b'<', b'>', 0, 0, 0, 0, 0, 0, 0, 1]);
}

#[test]
fn frame_split_sensitive() {
    let a = collapse_contents(vec![b"file1".as_slice(), b"file2".as_slice()]);
    let b = collapse_contents(vec![b"file1f".as_slice(), b"ile2".as_slice()]);
    assert_ne!(a, b);
    let c = collapse_contents(vec![b"a".as_slice(), b"b".as_slice()]);
    let d = collapse_contents(vec![b"ab".as_slice()]);
    assert_ne!(c, d);
}

#[test]
fn frame_count_sensitive() {
    let a = collapse_contents(vec![b"x".as_slice()]);
    let b = collapse_contents(vec![b"x".as_slice(), b"".as_slice()]);
    assert_ne!(a, b);
}

#[test]
fn fingerprint_deterministic() {
    let a = fingerprint_contents(vec![b"hello".as_slice(), b"world".as_slice()]);
    let b = fingerprint_contents(vec![b"hello".as_slice(), b"world".as_slice()]);
    assert_eq!(a, b);
    let c = fingerprint_contents(vec![b"helloworld".as_slice()]);
    assert_ne!(a, c);
}

#[test]
fn fingerprint_of_empty_buffer() {
    let h = gen_hash(b"");
    assert_eq!(h.len(), 16);
    assert_eq!(
        h,
        [
            0x7f, 0x9c, 0x2b, 0xa4, 0xe8, 0x8f, 0x82, 0x7d, 0x61, 0x60, 0x45, 0x50, 0x76, 0x05,
            0x85, 0x3e
        ]
    );
}

#[test]
fn fingerprint_of_contents_is_hash_of_frame() {
    let contents = vec![b"abc".as_slice()];
    let framed = collapse_contents(contents.clone());
    assert_eq!(fingerprint_contents(contents), gen_hash(&framed));
    assert_ne!(gen_hash(b"abc"), gen_hash(b"abd"));
}

#[test]
fn meta_sequence_five_three() {
    let m = Meta::new(3, 5).unwrap();
    let mut it = m.into_iter();
    let mut got = Vec::new();
    while let Some(p) = it.next() {
        got.push((p.exam_id(), p.page()));
    }
    assert_eq!(got, vec![(5, 1), (5, 2), (5, 3)]);
    assert!(it.next().is_none());
}

#[test]
fn meta_sequence_reaches_last_page() {
    let m = Meta::new(255, 9).unwrap();
    let mut it = m.into_iter();
    let mut count = 0u32;
    let mut last = 0u8;
    while let Some(p) = it.next() {
        count += 1;
        last = p.page();
    }
    assert_eq!(count, 255);
    assert_eq!(last, 255);
}

#[test]
fn meta_zero_page_refused() {
    assert_eq!(Meta::new(0, 5).unwrap_err(), Error::InvalidPageCount);
}

#[test]
fn meta_text_and_bytes() {
    let m = Meta::new(2, 0).unwrap();
    assert_eq!(m.to_string(), "0-2");
    assert_eq!(m.to_bytes(), vec![0, 2]);
    let m = Meta::new(255, 107).unwrap();
    assert_eq!(m.to_string(), "107-255");
    assert_eq!(m.to_bytes(), vec![107, 255]);
    let m = Meta::new(10, 42).unwrap();
    assert_eq!(m.to_string(), "42-10");
}

#[test]
fn payload_is_eighteen_bytes() {
    let h = gen_hash(b"data");
    let m = Meta::new(4, 7).unwrap();
    let p = build_payload(&h, &m).unwrap();
    assert_eq!(p.len(), 18);
    assert!(p.len() <= MAX_PAYLOAD);
    assert_eq!(&p[..16], &h[..]);
    assert_eq!(&p[16..], &[7, 4]);
}

#[test]
fn encode_refuses_long_payload() {
    let data = vec![1u8; 21];
    assert_eq!(encode_payload(&data).err(), Some(Error::PayloadTooLarge));
    assert!(encode_payload(&vec![1u8; 20]).is_ok());
    assert!(encode_payload(&vec![1u8; 18]).is_ok());
}

#[test]
fn end_to_end_hello_two_pages() {
    let meta = Meta::new(2, 0).unwrap();
    let mut series = mul_qr(vec![b"hello".as_slice()], meta, "qrcode-");
    let p1 = series.next_page().unwrap().unwrap();
    let p2 = series.next_page().unwrap().unwrap();
    assert!(series.next_page().is_none());
    assert_eq!(p1.name, "qrcode-0-1");
    assert_eq!(p2.name, "qrcode-0-2");
    assert_eq!(p1.payload.len(), 18);
    assert_eq!(p2.payload.len(), 18);
    assert_eq!(&p1.payload[..16], &p2.payload[..16]);
    assert_eq!(&p1.payload[..17], &p2.payload[..17]);
    assert_eq!(p1.payload[17], 1);
    assert_eq!(p2.payload[17], 2);
    let h = fingerprint_contents(vec![b"hello".as_slice()]);
    assert_eq!(&p1.payload[..16], &h[..]);
    assert!(encode_payload(&p1.payload).is_ok());
}

#[test]
fn series_pages_in_order() {
    let meta = Meta::new(3, 5).unwrap();
    let mut series = mul_qr(vec![], meta, "p");
    let mut names = Vec::new();
    while let Some(p) = series.next_page() {
        let p = p.unwrap();
        names.push(p.name);
    }
    assert_eq!(names, vec!["p5-1", "p5-2", "p5-3"]);
}

#[test]
fn encoder_refusal_is_encoding_failed() {
    let r = encoding_outcome(Err(qrcode::types::QrError::DataTooLong));
    assert_eq!(r.err(), Some(Error::EncodingFailed));
    let code = qrcode::QrCode::new(b"page").unwrap();
    assert!(encoding_outcome(Ok(code)).is_ok());
}

#[test]
fn failure_on_second_page_stops_series() {
    let meta = Meta::new(3, 1).unwrap();
    let mut series = mul_qr(vec![b"exam".as_slice()], meta, "qrcode-");
    let p1 = series.next_page().unwrap().unwrap();
    assert_eq!(p1.name, "qrcode-1-1");
    assert!(series.after_page(Ok(())).is_none());
    let p2 = series.next_page().unwrap().unwrap();
    assert_eq!(p2.name, "qrcode-1-2");
    assert_eq!(series.after_page(Err(Error::EncodingFailed)), Some(Error::EncodingFailed));
    assert!(series.next_page().is_none());
}

#[test]
fn write_failure_is_handed_back() {
    let meta = Meta::new(2, 0).unwrap();
    let mut series = mul_qr(vec![], meta, "n");
    assert!(series.next_page().is_some());
    assert_eq!(series.after_page(Err(Error::OutputWriteFailed)), Some(Error::OutputWriteFailed));
    assert!(series.next_page().is_none());
}

#[test]
fn every_short_payload_encodes() {
    for n in 0..=MAX_PAYLOAD {
        assert!(encode_payload(&vec![0xa5u8; n]).is_ok());
    }
}
