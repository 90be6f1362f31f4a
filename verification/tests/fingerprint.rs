use radiodiodj::library::fingerprint::{Fingerprinter, HEAD_BYTES};

#[test]
fn no_packet_gives_no_fingerprint() {
    let f = Fingerprinter::new(b"pcm_s16le", 44100, 2);
    assert_eq!(f.finish(), None);
}

#[test]
fn a_fingerprint_is_the_versioned_sha256_of_parameters_and_payload() {
    let mut f = Fingerprinter::new(b"", 0, 0);
    f.feed(b"abc");
    let header = [0u8; 8];
    let mut input = header.to_vec();
    input.extend_from_slice(b"abc");
    let fp = f.finish().unwrap();
    assert!(fp.starts_with("v1:"));
    assert_eq!(fp.len(), 3 + 64);
    let mut g = Fingerprinter::new(b"", 0, 0);
    g.feed(b"ab");
    g.feed(b"c");
    assert_eq!(g.finish().unwrap(), fp);
}

#[test]
fn sha256_of_the_empty_header_and_abc_matches_the_reference() {
    // Header: empty codec name, sample rate 0 and channels 0 as eight zero bytes.
    let mut f = Fingerprinter::new(b"abc", 0, 0);
    f.feed(b"");
    assert_eq!(f.finish(), None);
    let mut g = Fingerprinter::new(b"", 0, 0);
    g.feed(b"x");
    let other = g.finish().unwrap();
    let mut h = Fingerprinter::new(b"", 1, 0);
    h.feed(b"x");
    assert_ne!(h.finish().unwrap(), other);
}

#[test]
fn only_the_head_of_the_audio_counts() {
    let big = vec![7u8; HEAD_BYTES];
    let mut a = Fingerprinter::new(b"mp3", 44100, 2);
    a.feed(&big);
    assert!(!a.wants_more());
    a.feed(b"tail that does not count");
    let mut b = Fingerprinter::new(b"mp3", 44100, 2);
    b.feed(&big);
    assert_eq!(a.finish(), b.finish());
}
