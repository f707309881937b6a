use glyphrush::digest::{hex_lower_string, sha256_hex};

#[test]
fn digests_are_lower_case_hex() {
    assert_eq!(
        sha256_hex(b""),
        "e3b0c44298fc1c149afbf4c8996fb92427ae41e4649b934ca495991b7852b855"
    );
    assert_eq!(
        sha256_hex(b"hi there\n"),
        "c641344867e9806fadfd219f25b62b97c94db0eed04a1d79e93676533cfb782b"
    );
    assert_eq!(hex_lower_string(&[0x0f, 0xa0, 0x00, 0xff]), "0fa000ff");
}
