use extract::config::{
    parse_positive, positive_or_default, ConfigError, DEFAULT_BIND_ADDR, DEFAULT_BODY_LIMIT_BYTES,
};
use extract::decimal::{push_decimal, push_zero_padded_10};
use extract::domain::model::DomainError;
use extract::domain::test_support;
use extract::extract_service::{decode_and_parse, extract_payload};

fn payload_for(pdf: Vec<u8>) -> Vec<u8> {
    base64_simd::STANDARD.encode_to_string(&pdf).into_bytes()
}

#[test]
fn extracts_text_from_every_page_in_order() {
    let payload = payload_for(test_support::valid_pdf_bytes(3));

    let document = extract_payload(&payload, 1024 * 1024).unwrap();

    assert_eq!(document.page_count(), 3);
    assert_eq!(document.pages[0].page_number, 1);
    assert_eq!(document.pages[1].page_number, 2);
    assert_eq!(document.pages[2].page_number, 3);
    assert!(document.pages[0].text.contains("Page 1"));
    assert!(document.pages[1].text.contains("Page 2"));
    assert!(document.pages[2].text.contains("Page 3"));
}

#[test]
fn rejects_invalid_base64_payload() {
    let result = extract_payload(b"!!!not base64!!!", 1024 * 1024);

    assert_eq!(result, Err(DomainError::Base64Decode));
}

#[test]
fn rejects_payload_without_pdf_signature() {
    let payload = base64_simd::STANDARD
        .encode_to_string(b"not a pdf file at all")
        .into_bytes();

    let result = extract_payload(&payload, 1024 * 1024);

    assert_eq!(result, Err(DomainError::InvalidPdfSignature));
}

#[test]
fn extract_service_rejects_corrupt_pdf_with_valid_signature() {
    let payload = base64_simd::STANDARD
        .encode_to_string(b"%PDF-1.4\nnot a valid pdf body at all\n")
        .into_bytes();

    let result = extract_payload(&payload, 1024 * 1024);

    assert_eq!(result, Err(DomainError::PdfParse));
}

#[test]
fn isolates_unreadable_page_without_aborting_extraction() {
    let payload = payload_for(test_support::pdf_with_unreadable_page(3, 1));

    let document = extract_payload(&payload, 1024 * 1024).unwrap();

    assert_eq!(document.page_count(), 3);
    assert!(document.pages[0].text.contains("Page 1"));
    assert_eq!(document.pages[1].text, "");
    assert!(document.pages[2].text.contains("Page 3"));
}

#[test]
fn decoding_error_wins_over_signature_error() {
    assert!(matches!(decode_and_parse(b"JVBERi0"), Err(DomainError::Base64Decode)));
    assert!(matches!(decode_and_parse(b"eHh4"), Err(DomainError::InvalidPdfSignature)));
    let parsed = decode_and_parse(&payload_for(test_support::valid_pdf_bytes(2))).unwrap();
    assert_eq!(parsed.page_count(), 2);
}

#[test]
fn parses_plain_and_signed_positive_numbers() {
    assert_eq!(parse_positive("4096", ConfigError::BodyLimit), Ok(4096));
    assert_eq!(parse_positive("+7", ConfigError::ThreadCount), Ok(7));
    assert_eq!(parse_positive("007", ConfigError::ThreadCount), Ok(7));
    assert_eq!(
        parse_positive("18446744073709551615", ConfigError::BodyLimit),
        Ok(usize::MAX)
    );
}

#[test]
fn rejects_zero_empty_signed_and_overflowing_numbers() {
    for raw in ["0", "", "+", "-1", "many", " 4", "4 ", "1_000", "18446744073709551616", "+-3"] {
        assert_eq!(
            parse_positive(raw, ConfigError::ThreadCount),
            Err(ConfigError::ThreadCount(raw.to_string()))
        );
    }
    assert_eq!(
        parse_positive("unlimited", ConfigError::BodyLimit),
        Err(ConfigError::BodyLimit("unlimited".to_string()))
    );
}

#[test]
fn unset_setting_falls_back_to_default() {
    assert_eq!(
        positive_or_default(None, DEFAULT_BODY_LIMIT_BYTES, ConfigError::BodyLimit),
        Ok(50 * 1024 * 1024)
    );
    assert_eq!(
        positive_or_default(Some("1048576".to_string()), 1, ConfigError::BodyLimit),
        Ok(1048576)
    );
    assert_eq!(
        positive_or_default(Some("0".to_string()), 1, ConfigError::ThreadCount),
        Err(ConfigError::ThreadCount("0".to_string()))
    );
    assert_eq!(DEFAULT_BIND_ADDR, "0.0.0.0:8080");
}

#[test]
fn renders_decimal_and_padded_numbers() {
    let mut out = Vec::new();
    push_decimal(&mut out, 0);
    push_decimal(&mut out, 907);
    assert_eq!(out, b"0907");

    let mut out = Vec::new();
    push_zero_padded_10(&mut out, 293);
    assert_eq!(out, b"0000000293");

    let mut out = Vec::new();
    push_zero_padded_10(&mut out, 12345678901);
    assert_eq!(out, b"12345678901");
}
