use fog_manager::config::{decode_config, text_of_config, ConfigError};

#[test]
fn base64_is_decoded_to_text() {
    assert_eq!(decode_config("aGVsbG8gd29ybGQ="), Ok("hello world".to_string()));
    assert_eq!(decode_config("KG15X2lkOiAiMSIp"), Ok("(my_id: \"1\")".to_string()));
    assert_eq!(decode_config(""), Ok(String::new()));
    assert_eq!(decode_config("w6k="), Ok("\u{e9}".to_string()));
}

#[test]
fn bits_left_over_in_the_last_symbol_are_ignored() {
    // "aGk=" is "hi"; "aGl=" differs from it only in bits that are dropped.
    assert_eq!(decode_config("aGk="), Ok("hi".to_string()));
    assert_eq!(decode_config("aGl="), Ok("hi".to_string()));
}

#[test]
fn padding_may_be_left_out() {
    assert_eq!(decode_config("aGk"), Ok("hi".to_string()));
    assert_eq!(decode_config("aGVsbG8gd29ybGQ"), Ok("hello world".to_string()));
}

#[test]
fn what_is_not_base64_is_refused() {
    for text in ["a", "aG k=", "aGk=\n", "****", "aGk==", "=aGk", "aGVsbG8-", "aGVsb"] {
        assert_eq!(decode_config(text), Err(ConfigError::Base64), "{}", text);
    }
}

#[test]
fn bytes_that_are_not_utf8_are_refused() {
    assert_eq!(decode_config("//79"), Err(ConfigError::Utf8));
    assert_eq!(decode_config("gA=="), Err(ConfigError::Utf8));
    assert_eq!(decode_config("7aCA"), Err(ConfigError::Utf8));
}

#[test]
fn bytes_become_the_text_they_encode() {
    assert_eq!(text_of_config(vec![0x68, 0x69]), Ok("hi".to_string()));
    assert_eq!(text_of_config(vec![0xe2, 0x82, 0xac]), Ok("\u{20ac}".to_string()));
    assert_eq!(text_of_config(vec![]), Ok(String::new()));
    assert_eq!(text_of_config(vec![0xc0, 0x80]), Err(ConfigError::Utf8));
    assert_eq!(text_of_config(vec![0xff]), Err(ConfigError::Utf8));
}
