use swhkd::config::{Error, ParseError};

#[test]
fn test_display_io_error() {
    let io_text = std::io::Error::from(std::io::ErrorKind::UnexpectedEof).to_string();
    let error = Error::Io(io_text);

    if !error.message().contains("unexpected end of file") {
        panic!("Error message was '{}", error.message());
    }
}

#[test]
fn test_display_unknown_symbol_error() {
    let error = Error::InvalidConfig(ParseError::UnknownSymbol(String::new(), 10));

    assert_eq!(error.message(), "Error parsing config file \"\". Unknown symbol at line 10.");
}

#[test]
fn test_display_invalid_modifier_error() {
    let error = Error::InvalidConfig(ParseError::InvalidModifier(String::new(), 25));

    assert_eq!(error.message(), "Error parsing config file \"\". Invalid modifier at line 25.");
}

#[test]
fn test_invalid_keysm_error() {
    let error = Error::InvalidConfig(ParseError::InvalidKeysym(String::new(), 7));

    assert_eq!(error.message(), "Error parsing config file \"\". Invalid keysym at line 7.");
}

#[test]
fn test_config_not_found_message() {
    let error = Error::ConfigNotFound;
    assert_eq!(error.message(), "Config file not found.");
}
