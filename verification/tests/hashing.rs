use kl::hash::{hash_bytes, Fnv1a, FNV_OFFSET_BASIS, FNV_PRIME};

#[test]
fn empty_input_hashes_to_the_offset_basis() {
    assert_eq!(hash_bytes(b""), 0xcbf2_9ce4_8422_2325);
    assert_eq!(hash_bytes(b""), FNV_OFFSET_BASIS);
}

#[test]
fn one_byte_is_xored_in_and_multiplied() {
    let expected = (FNV_OFFSET_BASIS ^ 0x61).wrapping_mul(FNV_PRIME);
    assert_eq!(hash_bytes(b"a"), expected);
    assert_eq!(hash_bytes(b"a"), 0xaf63_dc4c_8601_ec8c);
}

#[test]
fn known_digests() {
    assert_eq!(hash_bytes(b"foobar"), 0x8594_4171_f739_67e8);
    assert_eq!(hash_bytes(b"x"), 0xaf63_f54c_8602_1707);
    assert_eq!(hash_bytes(b"y"), 0xaf63_f44c_8602_1554);
    assert_eq!(hash_bytes(b"int"), 0x2b9f_ff19_2bd4_c83e);
    assert_eq!(hash_bytes(b"Point"), 0x8a43_9296_ced9_ed11);
}

#[test]
fn equal_names_hash_alike() {
    let first = String::from("velocity");
    let second = String::from("velo") + "city";
    assert_eq!(hash_bytes(first.as_bytes()), hash_bytes(second.as_bytes()));
    assert_eq!(hash_bytes(b"int"), hash_bytes(b"int"));
}

#[test]
fn hashing_does_not_fold_case_or_trim() {
    assert_ne!(hash_bytes(b"int"), hash_bytes(b"Int"));
    assert_ne!(hash_bytes(b"int"), hash_bytes(b"int "));
    assert_ne!(hash_bytes(b"ab"), hash_bytes(b"ba"));
}

#[test]
fn short_names_do_not_collide() {
    let mut names: Vec<Vec<u8>> = Vec::new();
    let alphabet = b"abcdefghijklmnopqrstuvwxyz_0123456789";
    for &a in alphabet.iter() {
        names.push(vec![a]);
        for &b in alphabet.iter() {
            names.push(vec![a, b]);
        }
    }
    for word in [
        "int", "uint", "float", "double", "bool", "string", "char", "byte", "Point", "point",
        "Empty", "x", "y", "z", "id", "name", "kind", "value", "record", "tuple", "var",
    ] {
        names.push(word.as_bytes().to_vec());
    }
    names.sort();
    names.dedup();
    let mut digests: Vec<u64> = names.iter().map(|name| hash_bytes(name)).collect();
    digests.sort();
    digests.dedup();
    assert_eq!(digests.len(), names.len());
}

#[test]
fn a_hasher_fed_in_pieces_agrees_with_one_fed_at_once() {
    let mut pieces = Fnv1a::new();
    pieces.write(b"foo");
    pieces.write(b"");
    pieces.write(b"bar");
    assert_eq!(pieces.finish(), hash_bytes(b"foobar"));

    let mut bytes = Fnv1a::new();
    for &byte in b"foobar" {
        bytes.write_u8(byte);
    }
    assert_eq!(bytes.finish(), 0x8594_4171_f739_67e8);
}

#[test]
fn a_fresh_hasher_holds_the_offset_basis() {
    assert_eq!(Fnv1a::new().finish(), FNV_OFFSET_BASIS);
}

#[test]
fn a_word_is_fed_least_significant_byte_first() {
    let mut hasher = Fnv1a::new();
    hasher.write_u64(0x0102_0304_0506_0708);
    assert_eq!(hasher.finish(), hash_bytes(&[8, 7, 6, 5, 4, 3, 2, 1]));
    assert_eq!(hasher.finish(), 0x0c6d_4496_e178_59d5);

    let mut zero = Fnv1a::new();
    zero.write_u64(0);
    assert_eq!(zero.finish(), hash_bytes(&[0; 8]));

    let mut full = Fnv1a::new();
    full.write_u64(u64::MAX);
    assert_eq!(full.finish(), hash_bytes(&[0xff; 8]));
}
