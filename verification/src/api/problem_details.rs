//! RFC 9457 Problem Details: the one shape of every error the API answers with.
//!
//! | Error                 | status | title                 |
//! |-----------------------|--------|-----------------------|
//! | `Base64Decode`        | 400    | Invalid Base64        |
//! | `InvalidPdfSignature` | 400    | Invalid PDF Signature |
//! | `PdfParse`            | 422    | Unprocessable PDF     |
//! | `Extraction`          | 500    | Extraction Failed     |
//!
//! A body over the limit is answered with 413, an unknown route with 404.
use vstd::prelude::*;
use vstd::string::*;
use crate::decimal::{decimal_text, push_decimal_text};
use crate::domain::model::DomainError;

verus! {

pub const STATUS_BAD_REQUEST: u16 = 400;
pub const STATUS_NOT_FOUND: u16 = 404;
pub const STATUS_PAYLOAD_TOO_LARGE: u16 = 413;
pub const STATUS_UNPROCESSABLE_ENTITY: u16 = 422;
pub const STATUS_INTERNAL_SERVER_ERROR: u16 = 500;

/// A problem document.
#[derive(Debug, Clone)]
pub struct ProblemDetails {
    pub problem_type: &'static str,
    pub title: &'static str,
    pub status: u16,
    pub detail: String,
    pub instance: String,
}

/// The status that answers a domain error.
pub open spec fn domain_status(error: DomainError) -> u16 {
    match error {
        DomainError::Base64Decode => 400,
        DomainError::InvalidPdfSignature => 400,
        DomainError::PdfParse => 422,
        DomainError::Extraction => 500,
    }
}

/// The title that answers a domain error.
pub open spec fn domain_title(error: DomainError) -> Seq<char> {
    match error {
        DomainError::Base64Decode => "Invalid Base64"@,
        DomainError::InvalidPdfSignature => "Invalid PDF Signature"@,
        DomainError::PdfParse => "Unprocessable PDF"@,
        DomainError::Extraction => "Extraction Failed"@,
    }
}

/// The detail that answers a domain error.
pub open spec fn domain_detail(error: DomainError) -> Seq<char> {
    match error {
        DomainError::Base64Decode => "the request body is not valid base64"@,
        DomainError::InvalidPdfSignature => "the decoded payload does not start with the %PDF- magic signature"@,
        DomainError::PdfParse => "the payload is not a well-formed PDF document"@,
        DomainError::Extraction => "the PDF text could not be extracted"@,
    }
}

/// The detail of the answer to a body over `limit_bytes`.
pub open spec fn too_large_detail(limit_bytes: nat) -> Seq<char> {
    "request body exceeds the "@ + decimal_text(limit_bytes) + " byte limit"@
}

/// Whether `problem` is the problem document with these members and the default type.
pub open spec fn is_problem(
    problem: ProblemDetails,
    status: u16,
    title: Seq<char>,
    detail: Seq<char>,
    instance: Seq<char>,
) -> bool {
    &&& problem.problem_type@ == "about:blank"@
    &&& problem.status == status
    &&& problem.title@ == title
    &&& problem.detail@ == detail
    &&& problem.instance@ == instance
}

fn owned(s: &str) -> (r: String)
    ensures
        r@ == s@,
{
    s.to_string()
}

impl ProblemDetails {
    /// The answer to a domain error, per the table above.
    pub fn from_domain(error: DomainError) -> (problem: Self)
        ensures
            is_problem(
                problem,
                domain_status(error),
                domain_title(error),
                domain_detail(error),
                "/extract"@,
            ),
    {
        match error {
            DomainError::Base64Decode => Self::bad_request(
                "Invalid Base64",
                "the request body is not valid base64",
            ),
            DomainError::InvalidPdfSignature => Self::bad_request(
                "Invalid PDF Signature",
                "the decoded payload does not start with the %PDF- magic signature",
            ),
            DomainError::PdfParse => Self::unprocessable(
                "Unprocessable PDF",
                "the payload is not a well-formed PDF document",
            ),
            DomainError::Extraction => Self::internal(
                "Extraction Failed",
                "the PDF text could not be extracted",
            ),
        }
    }

    /// The answer to a request body over `limit_bytes`.
    pub fn payload_too_large(limit_bytes: usize) -> (problem: Self)
        ensures
            is_problem(
                problem,
                413,
                "Payload Too Large"@,
                too_large_detail(limit_bytes as nat),
                "/extract"@,
            ),
    {
        let mut detail = owned("request body exceeds the ");
        push_decimal_text(&mut detail, limit_bytes);
        detail.append(" byte limit");
        Self {
            problem_type: "about:blank",
            title: "Payload Too Large",
            status: STATUS_PAYLOAD_TOO_LARGE,
            detail,
            instance: owned("/extract"),
        }
    }

    /// The answer to a request for an unknown resource at the root.
    pub fn not_found() -> (problem: Self)
        ensures
            is_problem(
                problem,
                404,
                "Not Found"@,
                "the requested resource does not exist"@,
                "/"@,
            ),
    {
        Self::not_found_with_instance("/")
    }

    /// The answer to a body that is not the expected JSON object.
    pub fn invalid_request_body() -> (problem: Self)
        ensures
            is_problem(
                problem,
                400,
                "Invalid Request Body"@,
                "request body must be a JSON object with a document_base64 string field"@,
                "/extract"@,
            ),
    {
        Self::bad_request(
            "Invalid Request Body",
            "request body must be a JSON object with a document_base64 string field",
        )
    }

    /// The answer to a request for the unknown resource `instance`.
    pub fn not_found_with_instance(instance: &str) -> (problem: Self)
        ensures
            is_problem(
                problem,
                404,
                "Not Found"@,
                "the requested resource does not exist"@,
                instance@,
            ),
    {
        Self {
            problem_type: "about:blank",
            title: "Not Found",
            status: STATUS_NOT_FOUND,
            detail: owned("the requested resource does not exist"),
            instance: owned(instance),
        }
    }

    fn bad_request(title: &'static str, detail: &str) -> (problem: Self)
        ensures
            is_problem(problem, 400, title@, detail@, "/extract"@),
    {
        Self::with_status(STATUS_BAD_REQUEST, title, detail)
    }

    fn unprocessable(title: &'static str, detail: &str) -> (problem: Self)
        ensures
            is_problem(problem, 422, title@, detail@, "/extract"@),
    {
        Self::with_status(STATUS_UNPROCESSABLE_ENTITY, title, detail)
    }

    fn internal(title: &'static str, detail: &str) -> (problem: Self)
        ensures
            is_problem(problem, 500, title@, detail@, "/extract"@),
    {
        Self::with_status(STATUS_INTERNAL_SERVER_ERROR, title, detail)
    }

    fn with_status(status: u16, title: &'static str, detail: &str) -> (problem: Self)
        ensures
            is_problem(problem, status, title@, detail@, "/extract"@),
    {
        Self {
            problem_type: "about:blank",
            title,
            status,
            detail: owned(detail),
            instance: owned("/extract"),
        }
    }
}

/// A domain error is answered with a client error (4xx) when the request is at fault
/// (bad encoding, no signature, unparsable PDF) and with a server error (5xx) otherwise.
pub proof fn lemma_domain_status_classes(error: DomainError)
    ensures
        400 <= domain_status(error) < 500 <==> error != DomainError::Extraction,
        domain_status(error) == 500 <==> error == DomainError::Extraction,
{
}

} // verus!
