use extract::domain::base64_decoder::{decode_base64_vec, decoded_bytes};
use extract::domain::model::{DomainError, ExtractedDocument, PageText, PdfBytes};
use extract::domain::page_extractor::{extract_document, extract_page, page_text_from};
use extract::domain::pdf_parser::{parse_pdf, parsed_from_load};
use extract::domain::pdf_utils::validate_pdf_signature;
use extract::domain::test_support;
use extract::domain::decode_base64;
use rayon::{ThreadPool, ThreadPoolBuilder};

fn make_pool() -> ThreadPool {
    ThreadPoolBuilder::new().num_threads(1).build().unwrap()
}

fn sample_document() -> ExtractedDocument {
    ExtractedDocument {
        pages: vec![
            PageText {
                page_number: 1,
                text: "hola ".to_string(),
            },
            PageText {
                page_number: 2,
                text: "mundo".to_string(),
            },
        ],
    }
}

#[test]
fn decodes_known_vector_to_exact_original_bytes() {
    let pdf = decode_base64(b"SGVsbG8sIFdvcmxkIQ==").unwrap();

    assert_eq!(pdf.as_bytes(), b"Hello, World!");
}

#[test]
fn rejects_invalid_base64_without_panicking() {
    let result = decode_base64(b"!!!not base64!!!");

    assert_eq!(result, Err(DomainError::Base64Decode));
}

#[test]
fn preallocates_exact_capacity_matching_decoded_length() {
    let decoded = decode_base64_vec(b"SGVsbG8sIFdvcmxkIQ==").unwrap();

    assert_eq!(decoded.len(), b"Hello, World!".len());
    assert_eq!(decoded.capacity(), b"Hello, World!".len());
}

#[test]
fn page_count_matches_number_of_pages() {
    let document = sample_document();

    assert_eq!(document.page_count(), 2);
}

#[test]
fn text_concatenates_pages_in_page_number_order() {
    let document = sample_document();

    assert_eq!(document.text(), "hola mundo");
}

#[test]
fn empty_document_has_zero_pages_and_empty_text() {
    let document = ExtractedDocument { pages: Vec::new() };

    assert_eq!(document.page_count(), 0);
    assert_eq!(document.text(), "");
}

#[test]
fn pdf_bytes_exposes_decoded_bytes() {
    let pdf = PdfBytes::new(vec![0x25, b'P', b'D', b'F']);

    assert_eq!(pdf.as_bytes(), &[0x25, b'P', b'D', b'F']);
}

#[test]
fn domain_error_variants_are_equatable_and_distinct() {
    assert_eq!(DomainError::Base64Decode, DomainError::Base64Decode);
    assert_ne!(DomainError::Base64Decode, DomainError::InvalidPdfSignature);
    assert_ne!(DomainError::PdfParse, DomainError::Extraction);
}

#[test]
fn accepts_valid_pdf_header() {
    assert!(validate_pdf_signature(b"%PDF-1.7\n").is_ok());
}

#[test]
fn rejects_prefix_without_pdf_magic() {
    assert_eq!(
        validate_pdf_signature(b"PK\x03\x04 anything"),
        Err(DomainError::InvalidPdfSignature)
    );
}

#[test]
fn parses_valid_pdf_and_reports_page_count() {
    let pdf = test_support::valid_pdf(2);

    let parsed = parse_pdf(&pdf).unwrap();

    assert_eq!(parsed.page_count(), 2);
}

#[test]
fn single_page_pdf_has_page_count_one() {
    let pdf = test_support::valid_pdf(1);

    assert_eq!(parse_pdf(&pdf).unwrap().page_count(), 1);
}

#[test]
fn rejects_bytes_without_pdf_signature() {
    let pdf = PdfBytes::new(b"not a pdf file".to_vec());

    assert!(matches!(
        parse_pdf(&pdf),
        Err(DomainError::InvalidPdfSignature)
    ));
}

#[test]
fn pdf_parser_rejects_corrupt_pdf_with_valid_signature() {
    let pdf = PdfBytes::new(b"%PDF-1.4\nnot a valid pdf body at all\n".to_vec());

    assert!(matches!(parse_pdf(&pdf), Err(DomainError::PdfParse)));
}

#[test]
fn extracts_text_from_every_page_preserving_page_numbers() {
    let pdf = test_support::valid_pdf(3);
    let parsed = parse_pdf(&pdf).unwrap();
    let pool = make_pool();

    let result = pool.install(|| extract_document(&parsed, 1024 * 1024));

    assert_eq!(result.pages.len(), 3);
    assert_eq!(result.pages[0].page_number, 1);
    assert_eq!(result.pages[1].page_number, 2);
    assert_eq!(result.pages[2].page_number, 3);
    assert!(result.pages[0].text.contains("Page 1"));
    assert!(result.pages[1].text.contains("Page 2"));
    assert!(result.pages[2].text.contains("Page 3"));
}

#[test]
fn isolates_unreadable_page_as_empty_text() {
    let pdf = test_support::broken_pdf(3, 1);
    let parsed = parse_pdf(&pdf).unwrap();
    let pool = make_pool();

    let result = pool.install(|| extract_document(&parsed, 1024 * 1024));

    assert_eq!(result.pages.len(), 3);
    assert!(result.pages[0].text.contains("Page 1"));
    assert_eq!(result.pages[1].text, "");
    assert!(result.pages[2].text.contains("Page 3"));
}

#[test]
fn extracts_with_single_thread_pool() {
    let pdf = test_support::valid_pdf(2);
    let parsed = parse_pdf(&pdf).unwrap();
    let pool = ThreadPoolBuilder::new().num_threads(1).build().unwrap();

    let result = pool.install(|| extract_document(&parsed, 1024 * 1024));

    assert_eq!(result.pages.len(), 2);
    assert_eq!(result.pages[0].page_number, 1);
    assert_eq!(result.pages[1].page_number, 2);
}

#[test]
fn decoding_outcome_keeps_buffer_or_reports_base64_error() {
    let failure = base64_simd::STANDARD.decoded_length(b"abc").unwrap_err();

    assert_eq!(decoded_bytes(Ok(()), vec![1, 2, 3]), Ok(vec![1, 2, 3]));
    assert_eq!(decoded_bytes(Err(failure), vec![1, 2, 3]), Err(DomainError::Base64Decode));
}

#[test]
fn decodes_padding_variants_and_rejects_bad_lengths() {
    assert_eq!(decode_base64_vec(b"aGVsbG8=").unwrap(), b"hello");
    assert_eq!(decode_base64_vec(b"aGVsbA==").unwrap(), b"hell");
    assert_eq!(decode_base64_vec(b"aGVs").unwrap(), b"hel");
    assert_eq!(decode_base64_vec(b"").unwrap(), b"");
    assert_eq!(decode_base64_vec(b"aGVsbG8"), Err(DomainError::Base64Decode));
    assert_eq!(decode_base64_vec(b"aGVsbA="), Err(DomainError::Base64Decode));
}

#[test]
fn failed_extraction_yields_empty_page_text() {
    let page = page_text_from(4, Err(lopdf::Error::PageNumberNotFound(4)));
    assert_eq!(page.page_number, 4);
    assert_eq!(page.text, "");

    let page = page_text_from(2, Ok("Page 2".to_string()));
    assert_eq!(page.page_number, 2);
    assert_eq!(page.text, "Page 2");
}

#[test]
fn failed_load_is_a_parse_error() {
    let loaded = lopdf::Document::load_mem(b"%PDF-1.4\nnothing\n");
    assert!(matches!(parsed_from_load(loaded), Err(DomainError::PdfParse)));
}

#[test]
fn signature_check_needs_all_five_bytes() {
    assert!(validate_pdf_signature(b"%PDF-").is_ok());
    assert_eq!(validate_pdf_signature(b"%PDF"), Err(DomainError::InvalidPdfSignature));
    assert_eq!(validate_pdf_signature(b""), Err(DomainError::InvalidPdfSignature));
    assert_eq!(validate_pdf_signature(b"%PDX-1.4"), Err(DomainError::InvalidPdfSignature));
}

#[test]
fn each_page_holds_what_page_extraction_gives() {
    let pdf = test_support::broken_pdf(4, 2);
    let parsed = parse_pdf(&pdf).unwrap();
    let pool = ThreadPoolBuilder::new().num_threads(4).build().unwrap();

    let result = pool.install(|| extract_document(&parsed, 1024 * 1024));

    assert_eq!(result.pages.len(), parsed.page_count());
    for (i, page) in result.pages.iter().enumerate() {
        let expected = extract_page(parsed.document(), (i + 1) as u32, 1024 * 1024);
        assert_eq!(page, &expected);
    }
}

#[test]
fn parsing_succeeds_exactly_when_the_loader_does() {
    for bytes in [
        test_support::valid_pdf_bytes(3),
        b"%PDF-1.4\nnot a valid pdf body at all\n".to_vec(),
    ] {
        let loaded = lopdf::Document::load_mem(&bytes);
        let parsed = parse_pdf(&PdfBytes::new(bytes.clone()));
        assert_eq!(parsed.is_ok(), loaded.is_ok());
        if let (Ok(parsed), Ok(loaded)) = (parsed, loaded) {
            assert_eq!(parsed.page_count(), loaded.get_pages().len());
        }
    }
}
