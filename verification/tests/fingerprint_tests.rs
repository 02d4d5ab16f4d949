use openstack_cost_dashboard::fingerprint::{fingerprint, to_lower_hex};

#[test]
fn fingerprint_of_a_known_text() {
    // SHA-256 of "abc"
    assert_eq!(
        fingerprint("abc", &[]),
        "ba7816bf8f01cfea414140de5dae2223b00361a396177a9cb410ff61f20015ad"
    );
}

#[test]
fn fingerprint_of_the_empty_descriptor() {
    // SHA-256 of the empty byte string
    assert_eq!(
        fingerprint("", &[]),
        "e3b0c44298fc1c149afbf4c8996fb92427ae41e4649b934ca495991b7852b855"
    );
}

#[test]
fn fingerprint_hashes_each_argument_after_a_separator() {
    // SHA-256 of the bytes 61 ff 62 ff 63
    let params = vec!["b".to_string(), "c".to_string()];
    assert_eq!(
        fingerprint("a", &params),
        "f0f5240c3803920aefce626286dfafc92f23d70fcb7db464d8a237b4b3cbda6e"
    );
    assert_ne!(fingerprint("a", &params), fingerprint("abc", &[]));
}

#[test]
fn fingerprint_tells_where_one_part_ends() {
    let abc = fingerprint("abc", &[]);
    let ab_c = fingerprint("ab", &["c".to_string()]);
    let a_bc = fingerprint("a", &["bc".to_string()]);
    let a_b_c = fingerprint("a", &["b".to_string(), "c".to_string()]);
    assert_ne!(ab_c, a_bc);
    assert_ne!(ab_c, abc);
    assert_ne!(a_bc, abc);
    assert_ne!(a_b_c, ab_c);
    assert_ne!(a_b_c, a_bc);
    assert_ne!(fingerprint("a", &[]), fingerprint("a", &[String::new()]));
    assert_ne!(fingerprint("a", &[String::new()]), fingerprint("a", &[String::new(), String::new()]));
}

#[test]
fn fingerprint_depends_on_the_order_of_arguments_that_join_alike() {
    let forward = vec!["a".to_string(), "aa".to_string()];
    let backward = vec!["aa".to_string(), "a".to_string()];
    assert_eq!(
        fingerprint("openstack", &forward),
        "0881392312d44655ab10ce90c151dc59c8e2e391ad2aafe7370ae8a76fcbdf70"
    );
    assert_eq!(
        fingerprint("openstack", &backward),
        "8f2e172bf0a2ed90c6eba3057fb49279ef69d68ef3c7caf58332f0650c6abe0e"
    );
}

#[test]
fn equal_descriptors_have_equal_fingerprints() {
    let one = vec!["rating".to_string(), "-b".to_string(), "2024-03-01".to_string()];
    let two = vec!["rating".to_string(), "-b".to_string(), "2024-03-01".to_string()];
    assert_eq!(fingerprint("openstack", &one), fingerprint("openstack", &two));
}

#[test]
fn fingerprint_depends_on_argument_order_and_content() {
    let forward = vec!["-b".to_string(), "-e".to_string()];
    let backward = vec!["-e".to_string(), "-b".to_string()];
    let changed = vec!["-b".to_string(), "-f".to_string()];
    let base = fingerprint("openstack", &forward);
    assert_ne!(base, fingerprint("openstack", &backward));
    assert_ne!(base, fingerprint("openstack", &changed));
    assert_ne!(base, fingerprint("openstac", &forward));
}

#[test]
fn fingerprint_has_64_lower_case_hex_digits() {
    let params = vec!["-f".to_string(), "json".to_string()];
    let key = fingerprint("openstack", &params);
    assert_eq!(key.len(), 64);
    assert!(key.chars().all(|c| c.is_ascii_digit() || ('a'..='f').contains(&c)));
}

#[test]
fn fingerprint_takes_text_as_utf8() {
    // SHA-256 of the two bytes c3 a9
    let key = fingerprint("\u{e9}", &[]);
    assert_eq!(key, "4a99557e4033c3539de2eb65472017cad5f9557f7a0625a09f1c3f6e2ba69c4c");
    // SHA-256 of the three bytes ff c3 a9
    assert_eq!(
        fingerprint("", &["\u{e9}".to_string()]),
        "07424b125dbaf0fb90143e41a0313a2eb5592a129a75347e07ecab71b1fde0c6"
    );
    assert_ne!(key, fingerprint("e", &[]));
    assert_eq!(key.len(), 64);
}

#[test]
fn hex_writes_two_digits_for_each_byte() {
    assert_eq!(to_lower_hex(&[]), "");
    assert_eq!(to_lower_hex(&[10, 20, 30]), "0a141e");
    assert_eq!(to_lower_hex(&[0x00, 0x09, 0x0a, 0x0f, 0x10, 0x9f, 0xa0, 0xff]), "00090a0f109fa0ff");
    assert_eq!(to_lower_hex(&[0xde, 0xad, 0xbe, 0xef]), "deadbeef");
}
