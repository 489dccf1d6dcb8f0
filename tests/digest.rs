use vagga_core::digest::Digest;

#[test]
fn empty_digest_is_sha256_of_nothing() {
    let d = Digest::new();
    assert_eq!(
        d.result_str(),
        "e3b0c44298fc1c149afbf4c8996fb92427ae41e4649b934ca495991b7852b855"
    );
}

#[test]
fn digest_of_abc() {
    let mut d = Digest::new();
    d.input(b"ab");
    d.input_range(b"xcx", 1, 2);
    assert_eq!(d.bytes().to_vec(), b"abc".to_vec());
    assert_eq!(
        d.result_str(),
        "ba7816bf8f01cfea414140de5dae2223b00361a396177a9cb410ff61f20015ad"
    );
}
