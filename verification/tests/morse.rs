use scout_encoder::morse::{decode, encode, Morse, TranslateError};

#[test]
fn should_return_a_bc() {
    assert_eq!(decode(".-//-.../-.-.").unwrap(), "A BC")
}

#[test]
fn decodes_single_word_without_word_separator() {
    assert_eq!(decode(".-/-.../-.-.").unwrap(), "ABC");
}

#[test]
fn encodes_two_words() {
    assert_eq!(encode("A BC").unwrap(), ".-//-.../-.-.");
}

#[test]
fn encodes_lowercase_as_uppercase() {
    assert_eq!(encode("abc").unwrap(), ".-/-.../-.-.");
}

#[test]
fn encode_then_decode_returns_normalized_message() {
    let coded = encode("sos sos").unwrap();
    assert_eq!(coded, ".../---/...//.../---/...");
    assert_eq!(decode(&coded).unwrap(), "SOS SOS");
}

#[test]
fn decodes_every_digit() {
    assert_eq!(
        decode("-----/.----/..---/...--/....-/...../-..../--.../---../----.").unwrap(),
        "0123456789"
    );
}

#[test]
fn decodes_empty_message_to_empty_string() {
    assert_eq!(decode("").unwrap(), "");
}

#[test]
fn encodes_empty_message_to_empty_string() {
    assert_eq!(encode("").unwrap(), "");
}

#[test]
fn empty_word_from_consecutive_separators_adds_no_letters() {
    assert_eq!(decode(".-////-.-.").unwrap(), "A  C");
}

#[test]
fn decode_fails_on_unmapped_token() {
    assert_eq!(
        decode("......").unwrap_err(),
        TranslateError::InvalidSymbol("......".to_string())
    );
}

#[test]
fn decode_reports_first_unmapped_token() {
    assert_eq!(
        decode(".-/..--//......").unwrap_err(),
        TranslateError::InvalidSymbol("..--".to_string())
    );
}

#[test]
fn encode_fails_on_unmapped_character() {
    assert_eq!(
        encode("A?").unwrap_err(),
        TranslateError::InvalidSymbol("?".to_string())
    );
}

#[test]
fn morse_struct_methods_match_free_functions() {
    let cipher = Morse::new(".-//-.../-.-.");
    assert_eq!(cipher.decode().unwrap(), "A BC");
    let cipher = Morse::new("A BC");
    assert_eq!(cipher.encode().unwrap(), ".-//-.../-.-.");
}
