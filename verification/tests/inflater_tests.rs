use flate2::write::ZlibEncoder;
use flate2::Compression;
use gateway_core::inflater::{consumed_offset, payload_complete, Inflater};
use std::io::Write;

fn compressed_stream(parts: &[&[u8]]) -> Vec<Vec<u8>> {
    let mut e = ZlibEncoder::new(Vec::new(), Compression::default());
    let mut out = Vec::new();
    for p in parts {
        let start = e.get_ref().len();
        e.write_all(p).unwrap();
        e.flush().unwrap();
        out.push(e.get_ref()[start..].to_vec());
    }
    out
}

#[test]
fn completeness_is_the_sync_flush_suffix() {
    assert!(payload_complete(&[1, 0, 0, 0xff, 0xff]));
    assert!(payload_complete(&[0, 0, 0xff, 0xff]));
    assert!(!payload_complete(&[0, 0xff, 0xff]));
    assert!(!payload_complete(&[0, 0, 0xff, 0xfe]));
    assert!(!payload_complete(&[]));
}

#[test]
fn offsets_are_the_growth_of_the_input_count() {
    assert_eq!(consumed_offset(10, 4), 6);
    assert_eq!(consumed_offset(4, 4), 0);
    assert_eq!(consumed_offset(3, 4), 0);
}

#[test]
fn partial_payloads_wait_for_the_rest() {
    let chunks = compressed_stream(&[b"hello gateway"]);
    let bytes = &chunks[0];
    let mut inf = Inflater::new();
    inf.extend(&bytes[..bytes.len() - 2]);
    assert!(matches!(inf.msg(), Ok(None)));
    inf.extend(&bytes[bytes.len() - 2..]);
    match inf.msg() {
        Ok(Some(out)) => assert_eq!(out, b"hello gateway"),
        _ => panic!("expected the inflated payload"),
    }
}

#[test]
fn successive_payloads_share_one_stream() {
    let chunks = compressed_stream(&[b"first", b"second payload"]);
    let mut inf = Inflater::new();
    inf.extend(&chunks[0]);
    match inf.msg() {
        Ok(Some(out)) => assert_eq!(out, b"first"),
        _ => panic!("expected the first payload"),
    }
    inf.clear();
    inf.extend(&chunks[1]);
    match inf.msg() {
        Ok(Some(out)) => assert_eq!(out, b"second payload"),
        _ => panic!("expected the second payload"),
    }
}

#[test]
fn large_payloads_inflate_across_several_buffers() {
    let big: Vec<u8> = (0..200_000u32).map(|i| (i % 251) as u8).collect();
    let chunks = compressed_stream(&[&big]);
    let mut inf = Inflater::new();
    inf.extend(&chunks[0]);
    match inf.msg() {
        Ok(Some(out)) => assert_eq!(out, &big[..]),
        _ => panic!("expected the large payload"),
    }
}

#[test]
fn without_clear_inflated_bytes_accumulate() {
    let chunks = compressed_stream(&[b"ab", b"cd"]);
    let mut inf = Inflater::new();
    inf.extend(&chunks[0]);
    assert!(matches!(inf.msg(), Ok(Some(_))));
    inf.extend(&chunks[1]);
    match inf.msg() {
        Ok(Some(out)) => assert_eq!(out, b"abcd"),
        _ => panic!("expected the accumulated payloads"),
    }
}

#[test]
fn garbage_is_an_inflate_error() {
    let mut inf = Inflater::new();
    inf.extend(&[0x12, 0x34, 0x00, 0x00, 0xff, 0xff]);
    assert!(inf.msg().is_err());
}
