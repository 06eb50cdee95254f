use up4::b64::{decode, encode};

/// The RFC 4648 section 10 test vectors.
#[test]
fn rfc_vectors_round_trip() {
    for (plain, encoded) in [
        ("", ""),
        ("f", "Zg=="),
        ("fo", "Zm8="),
        ("foo", "Zm9v"),
        ("foob", "Zm9vYg=="),
        ("fooba", "Zm9vYmE="),
        ("foobar", "Zm9vYmFy"),
    ] {
        assert_eq!(encode(plain.as_bytes()), encoded, "encoding {plain:?}");
        assert_eq!(
            decode(encoded).as_deref(),
            Some(plain.as_bytes()),
            "decoding {encoded:?}"
        );
    }
}

#[test]
fn arbitrary_bytes_round_trip() {
    let mut state = 0x2545_f491u32;
    for len in 0..300usize {
        let bytes: Vec<u8> = (0..len)
            .map(|_| {
                state = state.wrapping_mul(1_664_525).wrapping_add(1_013_904_223);
                (state >> 24) as u8
            })
            .collect();
        assert_eq!(
            decode(&encode(&bytes)).as_deref(),
            Some(bytes.as_slice()),
            "len {len}"
        );
    }
}

#[test]
fn malformed_input_is_rejected_not_guessed() {
    assert_eq!(decode("Zg="), None, "length must be a multiple of four");
    assert_eq!(decode("Z!=="), None, "alphabet is exact");
}

#[test]
fn padding_stands_only_at_the_end() {
    assert_eq!(decode("Zg==Zg=="), None, "padding ends the text");
    assert_eq!(decode("Zg=a"), None, "nothing follows padding");
    assert_eq!(decode("Z==="), None, "a byte takes two digits");
    assert_eq!(decode("===="), None);
    assert_eq!(decode("Zm9v\u{e9}"), None);
}

#[test]
fn every_digit_of_the_alphabet_is_used() {
    assert_eq!(encode(&[0, 16, 131, 251, 255, 191]), "ABCD+/+/");
    assert_eq!(decode("ABCD+/+/"), Some(vec![0, 16, 131, 251, 255, 191]));
}

#[test]
fn every_three_bytes_take_four_characters() {
    for (bytes, chars) in [(0, 0), (1, 4), (2, 4), (3, 4), (4, 8), (1460, 1948)] {
        assert_eq!(encode(&vec![0u8; bytes]).len(), chars);
    }
}
