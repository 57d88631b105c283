use extract::api::contract::{ExtractPage, ExtractResponse};
use extract::api::problem_details::ProblemDetails;
use extract::domain::model::{DomainError, ExtractedDocument, PageText};

fn assert_extract_problem(problem: &ProblemDetails, status: u16, title: &str) {
    assert_eq!(problem.status, status);
    assert_eq!(problem.problem_type, "about:blank");
    assert_eq!(problem.title, title);
    assert_eq!(problem.instance, "/extract");
    assert!(!problem.detail.is_empty());
}

#[test]
fn base64_decode_error_maps_to_400_bad_request() {
    let problem = ProblemDetails::from_domain(DomainError::Base64Decode);

    assert_extract_problem(&problem, 400, "Invalid Base64");
    assert_eq!(problem.detail, "the request body is not valid base64");
}

#[test]
fn invalid_signature_error_maps_to_400_bad_request() {
    let problem = ProblemDetails::from_domain(DomainError::InvalidPdfSignature);

    assert_extract_problem(&problem, 400, "Invalid PDF Signature");
    assert_eq!(
        problem.detail,
        "the decoded payload does not start with the %PDF- magic signature"
    );
}

#[test]
fn pdf_parse_error_maps_to_422_unprocessable() {
    let problem = ProblemDetails::from_domain(DomainError::PdfParse);

    assert_extract_problem(&problem, 422, "Unprocessable PDF");
    assert_eq!(problem.detail, "the payload is not a well-formed PDF document");
}

#[test]
fn extraction_error_maps_to_500_internal_error() {
    let problem = ProblemDetails::from_domain(DomainError::Extraction);

    assert_extract_problem(&problem, 500, "Extraction Failed");
    assert_eq!(problem.detail, "the PDF text could not be extracted");
}

#[test]
fn payload_too_large_reports_the_configured_limit() {
    let problem = ProblemDetails::payload_too_large(52428800);

    assert_extract_problem(&problem, 413, "Payload Too Large");
    assert!(problem.detail.contains("52428800"));
    assert_eq!(problem.detail, "request body exceeds the 52428800 byte limit");
}

#[test]
fn payload_too_large_renders_small_and_zero_limits() {
    assert_eq!(
        ProblemDetails::payload_too_large(0).detail,
        "request body exceeds the 0 byte limit"
    );
    assert_eq!(
        ProblemDetails::payload_too_large(1024).detail,
        "request body exceeds the 1024 byte limit"
    );
    assert_eq!(
        ProblemDetails::payload_too_large(usize::MAX).detail,
        format!("request body exceeds the {} byte limit", usize::MAX)
    );
}

#[test]
fn not_found_has_404_status_and_title() {
    let problem = ProblemDetails::not_found();

    assert_eq!(problem.status, 404);
    assert_eq!(problem.title, "Not Found");
    assert_eq!(problem.instance, "/");
    assert_eq!(problem.detail, "the requested resource does not exist");
}

#[test]
fn not_found_keeps_the_requested_path() {
    let problem = ProblemDetails::not_found_with_instance("/nonexistent");

    assert_eq!(problem.status, 404);
    assert_eq!(problem.instance, "/nonexistent");
}

#[test]
fn invalid_request_body_is_a_400_problem() {
    let problem = ProblemDetails::invalid_request_body();

    assert_extract_problem(&problem, 400, "Invalid Request Body");
    assert_eq!(
        problem.detail,
        "request body must be a JSON object with a document_base64 string field"
    );
}

#[test]
fn response_carries_pages_in_order_and_joined_text() {
    let document = ExtractedDocument {
        pages: vec![
            PageText {
                page_number: 1,
                text: "hola ".to_string(),
            },
            PageText {
                page_number: 2,
                text: "mundo".to_string(),
            },
        ],
    };

    let response = ExtractResponse::from_extracted(document, 17);

    assert_eq!(response.page_count, 2);
    assert_eq!(response.text, "hola mundo");
    assert_eq!(response.duration_ms, 17);
    assert_eq!(response.pages.len(), 2);
    assert_eq!(response.pages[0].page_number, 1);
    assert_eq!(response.pages[0].text, "hola ");
    assert_eq!(response.pages[1].page_number, 2);
    assert_eq!(response.pages[1].text, "mundo");
}

#[test]
fn extract_page_converts_from_page_text() {
    let page = ExtractPage::from(PageText {
        page_number: 9,
        text: "nine".to_string(),
    });

    assert_eq!(page.page_number, 9);
    assert_eq!(page.text, "nine");
}
