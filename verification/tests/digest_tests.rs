use reality::{digest_address, Sha256Digester};

#[test]
fn test_sha256_digester() {
    let source = vec![(String::from("test_value"), b"hello world".to_vec())];
    let digested = Sha256Digester().format(&source);
    for (a, _) in digested.iter() {
        assert_eq!(
            "sha256:b94d27b9934d3e8a52e52d7da7dabfac484efe37a5380ee9088f7ace2efcde9",
            a
        );
    }
    assert_eq!(digested.len(), 1);
}

#[test]
fn digester_keeps_contents_in_order() {
    let source = vec![
        (String::from("a"), b"one".to_vec()),
        (String::from("b"), Vec::new()),
    ];
    let out = Sha256Digester().format(&source);
    assert_eq!(out.len(), 2);
    assert_eq!(out[0].1, b"one".to_vec());
    assert_eq!(out[1].1, Vec::<u8>::new());
    assert_eq!(
        out[1].0,
        "sha256:e3b0c44298fc1c149afbf4c8996fb92427ae41e4649b934ca495991b7852b855"
    );
    assert_ne!(out[0].0, "a");
}

#[test]
fn digest_address_drops_leading_zeros_per_byte() {
    assert_eq!(digest_address(&[0x00, 0x0f, 0x10, 0xff]), "sha256:0f10ff");
    assert_eq!(digest_address(&[]), "sha256:");
    assert_eq!(digest_address(&[0xab, 0x01]), "sha256:ab1");
}
