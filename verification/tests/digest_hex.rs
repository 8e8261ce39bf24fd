use chuk_robot_benches::digest::{sha256_hex, to_hex_lower};

#[test]
fn sha256_hex_matches_known_digests() {
    assert_eq!(sha256_hex(b""), "e3b0c44298fc1c149afbf4c8996fb92427ae41e4649b934ca495991b7852b855");
    assert_eq!(sha256_hex(b"abc"), "ba7816bf8f01cfea414140de5dae2223b00361a396177a9cb410ff61f20015ad");
}

#[test]
fn sha256_hex_is_sixty_four_lowercase_digits_and_depends_on_input() {
    let a = sha256_hex(b"robot-a");
    let b = sha256_hex(b"robot-b");
    assert_eq!(a.len(), 64);
    assert!(a.chars().all(|c| c.is_ascii_digit() || ('a'..='f').contains(&c)));
    assert_ne!(a, b);
    assert_eq!(a, sha256_hex(b"robot-a"));
}

#[test]
fn to_hex_lower_renders_two_digits_per_byte() {
    assert_eq!(to_hex_lower(&[]), "");
    assert_eq!(to_hex_lower(&[0x00, 0x0f, 0xa0, 0xff, 0x5c]), "000fa0ff5c");
}
