use scout_encoder::murcielago::{
    decode_base0, decode_base1, encode_base0, encode_base1, Murcielago,
};

#[test]
fn test_decode_base0() {
    assert_eq!(decode_base0("9 8 7 6 5 4 3 2 1 0"), "O G A L E I C R U M");
}

#[test]
fn test_decode_base1() {
    assert_eq!(decode_base1("0 9 8 7 6 5 4 3 2 1"), "O G A L E I C R U M");
}

#[test]
fn test_encode_base0() {
    assert_eq!(encode_base0("M U R C I E L A G O"), "0 1 2 3 4 5 6 7 8 9");
}

#[test]
fn test_encode_base1() {
    assert_eq!(encode_base1("M U R C I E L A G O"), "1 2 3 4 5 6 7 8 9 0");
}

#[test]
fn encodes_whole_keyword_base0() {
    assert_eq!(encode_base0("MURCIELAGO"), "0123456789");
}

#[test]
fn encodes_whole_keyword_base1() {
    assert_eq!(encode_base1("MURCIELAGO"), "1234567890");
}

#[test]
fn decodes_case_insensitively_to_uppercase() {
    assert_eq!(decode_base0("S391TS"), "SCOUTS");
}

#[test]
fn encodes_lowercase_letters_like_uppercase() {
    assert_eq!(encode_base0("murcielago"), "0123456789");
}

#[test]
fn round_trip_returns_normalized_message() {
    assert_eq!(decode_base0(&encode_base0("murcielago")), "MURCIELAGO");
    assert_eq!(decode_base1(&encode_base1("MURCIELAGO")), "MURCIELAGO");
}

#[test]
fn base1_digits_are_base0_digits_rotated_by_one() {
    let base0 = encode_base0("MURCIELAGO");
    let base1 = encode_base1("MURCIELAGO");
    let rotated: String = base0
        .chars()
        .map(|c| {
            let d = c.to_digit(10).unwrap();
            char::from_digit((d + 1) % 10, 10).unwrap()
        })
        .collect();
    assert_eq!(base1, rotated);
}

#[test]
fn unmapped_characters_pass_through_unchanged() {
    assert_eq!(encode_base0("XY-Z !?"), "XY-Z !?");
    assert_eq!(decode_base0("XY-Z !?"), "XY-Z !?");
}

#[test]
fn empty_message_translates_to_empty_string() {
    assert_eq!(encode_base0(""), "");
    assert_eq!(decode_base1(""), "");
}

#[test]
fn murcielago_struct_methods_match_free_functions() {
    let cipher = Murcielago::new("9 8 7 6 5 4 3 2 1 0");
    assert_eq!(cipher.decode_base0(), "O G A L E I C R U M");
    let cipher = Murcielago::new("MURCIELAGO");
    assert_eq!(cipher.encode_base0(), "0123456789");
    assert_eq!(cipher.encode_base1(), "1234567890");
    let cipher = Murcielago::new("0 9 8 7 6 5 4 3 2 1");
    assert_eq!(cipher.decode_base1(), "O G A L E I C R U M");
}
