use url_store::digest::fingerprint;

#[test]
fn fingerprint_matches_fixed_vectors() {
    let empty: [u8; 32] = [
        0xe3, 0xb0, 0xc4, 0x42, 0x98, 0xfc, 0x1c, 0x14, 0x9a, 0xfb, 0xf4, 0xc8, 0x99, 0x6f,
        0xb9, 0x24, 0x27, 0xae, 0x41, 0xe4, 0x64, 0x9b, 0x93, 0x4c, 0xa4, 0x95, 0x99, 0x1b,
        0x78, 0x52, 0xb8, 0x55,
    ];
    let abc: [u8; 32] = [
        0xba, 0x78, 0x16, 0xbf, 0x8f, 0x01, 0xcf, 0xea, 0x41, 0x41, 0x40, 0xde, 0x5d, 0xae,
        0x22, 0x23, 0xb0, 0x03, 0x61, 0xa3, 0x96, 0x17, 0x7a, 0x9c, 0xb4, 0x10, 0xff, 0x61,
        0xf2, 0x00, 0x15, 0xad,
    ];
    let example: [u8; 32] = [
        0x10, 0x06, 0x80, 0xad, 0x54, 0x6c, 0xe6, 0xa5, 0x77, 0xf4, 0x2f, 0x52, 0xdf, 0x33,
        0xb4, 0xcf, 0xdc, 0xa7, 0x56, 0x85, 0x9e, 0x66, 0x4b, 0x8d, 0x7d, 0xe3, 0x29, 0xb1,
        0x50, 0xd0, 0x9c, 0xe9,
    ];
    assert_eq!(fingerprint(""), empty.to_vec());
    assert_eq!(fingerprint("abc"), abc.to_vec());
    assert_eq!(fingerprint("https://example.com"), example.to_vec());
}

#[test]
fn fingerprint_is_deterministic_and_fixed_size() {
    let a = fingerprint("https://example.com/some/long/path?q=1");
    let b = fingerprint("https://example.com/some/long/path?q=1");
    assert_eq!(a, b);
    assert_eq!(a.len(), 32);
    let c = fingerprint("https://example.com/some/long/path?q=2");
    assert_ne!(a, c);
}
