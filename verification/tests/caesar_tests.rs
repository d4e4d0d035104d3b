use caesar::{caesar, KeyError, Mode};

#[test]
fn it_encrypts_basic_string() {
    let result = caesar("ABC", 1, Mode::Encrypt).unwrap();
    assert_eq!("BCD", result);
}

#[test]
fn it_decrypts_basic_string() {
    let result = caesar("BCD", 1, Mode::Decrypt).unwrap();
    assert_eq!("ABC", result);
}

#[test]
fn it_ignores_but_keeps_non_alphabet_characters() {
    let result = caesar("(ABC)D", 1, Mode::Encrypt).unwrap();
    assert_eq!("(BCD)E", result);
}

#[test]
fn it_respects_spaces() {
    let result = caesar("A B C", 1, Mode::Encrypt).unwrap();
    assert_eq!("B C D", result);
}

#[test]
fn it_respects_multiline() {
    let result = caesar("A \n B \n C", 1, Mode::Encrypt).unwrap();
    assert_eq!("B \n C \n D", result);
}

#[test]
fn it_respects_capitalization() {
    let result = caesar("ABC", 1, Mode::Encrypt).unwrap();
    assert_eq!("BCD", result);

    let result = caesar("abc", 1, Mode::Encrypt).unwrap();
    assert_eq!("bcd", result);
}

#[test]
fn it_ignores_but_keeps_utf8_chars() {
    let result = caesar("ЗaЗ", 1, Mode::Encrypt).unwrap();
    assert_eq!("ЗbЗ", result)
}

#[test]
fn it_handles_last_alpha_pos_encrypt() {
    let result = caesar("ABC", 26, Mode::Encrypt).unwrap();
    assert_eq!("ABC", result);
}

#[test]
fn it_handles_last_alpha_pos_decrypt() {
    let result = caesar("ABC", 26, Mode::Decrypt).unwrap();
    assert_eq!("ABC", result);
}

#[test]
// Letters close to the end and displacement exceeds last alpha.
fn it_handles_relative_upper_overflow() {
    let result = caesar("XY", 3, Mode::Encrypt).unwrap();
    assert_eq!("AB", result);
}

#[test]
// Letters close to the end and displacement exceeds last alpha.
fn it_handles_relative_lower_overflow() {
    let result = caesar("BC", 3, Mode::Decrypt).unwrap();
    assert_eq!("YZ", result);
}

#[test]
// Two times the alphabet + 2 (forward).
fn it_handles_upper_bound_overflow() {
    let result = caesar("ABC", 54, Mode::Encrypt).unwrap();
    assert_eq!("CDE", result);
}

#[test]
// Two times the alphabet + 3 (backward).
fn it_handles_lower_bound_overflow() {
    let result = caesar("ABC", 55, Mode::Decrypt).unwrap();
    assert_eq!("XYZ", result);
}

#[test]
fn it_returns_same_on_no_key() {
    let result = caesar("ABC", 0, Mode::Encrypt).unwrap();
    assert_eq!("ABC", result);
}

#[test]
fn it_returns_error_on_negative_key() {
    let result = caesar("ABC", -1, Mode::Encrypt).unwrap_err();
    assert_eq!(KeyError, result);
}

#[test]
fn errors_key_has_display() {
    let error = KeyError {};
    assert_eq!(
        "the key parameter must be a positive number between 0 - 999999.",
        error.message()
    );
}

#[test]
fn it_returns_error_on_max_key_size() {
    let result = caesar("ABC", 1_000_000, Mode::Encrypt).unwrap_err();
    assert_eq!(KeyError, result);
}

#[test]
fn it_deals_with_max_key_size() {
    let result = caesar("ABC", 999_999, Mode::Encrypt).unwrap();
    assert_eq!("NOP", result);
}
