//! The PDF magic signature.
use vstd::prelude::*;
use vstd::string::*;
use crate::domain::model::DomainError;

verus! {

/// The five bytes `%PDF-` that open every PDF file.
pub open spec fn pdf_signature() -> Seq<u8> {
    "%PDF-".spec_bytes()
}

/// Whether `bytes` opens with the PDF signature.
pub open spec fn has_pdf_signature(bytes: Seq<u8>) -> bool {
    bytes.len() >= pdf_signature().len() && bytes.take(pdf_signature().len() as int)
        == pdf_signature()
}

/// The signature is the five ASCII bytes `%`, `P`, `D`, `F`, `-`.
pub proof fn lemma_pdf_signature_bytes()
    ensures
        pdf_signature() == seq![0x25u8, 0x50u8, 0x44u8, 0x46u8, 0x2du8],
{
    let s: &str = "%PDF-";
    reveal_strlit("%PDF-");
    assert(is_ascii(s));
    is_ascii_spec_bytes(s);
    assert(pdf_signature() =~= seq![0x25u8, 0x50u8, 0x44u8, 0x46u8, 0x2du8]);
}

/// The check looks at the first five bytes only: a byte string passes exactly when it has at
/// least five bytes and they are `%`, `P`, `D`, `F`, `-`, whatever follows them.
pub proof fn lemma_signature_is_first_five_bytes(bytes: Seq<u8>, other: Seq<u8>)
    ensures
        has_pdf_signature(bytes) <==> (bytes.len() >= 5 && bytes[0] == 0x25u8 && bytes[1] == 0x50u8
            && bytes[2] == 0x44u8 && bytes[3] == 0x46u8 && bytes[4] == 0x2du8),
        bytes.len() >= 5 && other.len() >= 5 && bytes.take(5) == other.take(5) ==> (
        has_pdf_signature(bytes) <==> has_pdf_signature(other)),
{
    lemma_pdf_signature_bytes();
    if bytes.len() >= 5 && bytes[0] == 0x25u8 && bytes[1] == 0x50u8 && bytes[2] == 0x44u8
        && bytes[3] == 0x46u8 && bytes[4] == 0x2du8 {
        assert(bytes.take(5) =~= pdf_signature());
    }
    if has_pdf_signature(bytes) {
        assert(bytes.take(5)[0] == bytes[0]);
        assert(bytes.take(5)[1] == bytes[1]);
        assert(bytes.take(5)[2] == bytes[2]);
        assert(bytes.take(5)[3] == bytes[3]);
        assert(bytes.take(5)[4] == bytes[4]);
    }
}

/// Accepts exactly the byte strings that open with `%PDF-`.
pub fn validate_pdf_signature(bytes: &[u8]) -> (r: Result<(), DomainError>)
    ensures
        r is Ok <==> has_pdf_signature(bytes@),
        r is Ok <==> (bytes@.len() >= 5 && bytes@[0] == 0x25u8 && bytes@[1] == 0x50u8 && bytes@[2]
            == 0x44u8 && bytes@[3] == 0x46u8 && bytes@[4] == 0x2du8),
        r matches Err(e) ==> e == DomainError::InvalidPdfSignature,
{
    let magic: &[u8] = "%PDF-".as_bytes();
    proof {
        lemma_pdf_signature_bytes();
        lemma_signature_is_first_five_bytes(bytes@, bytes@);
    }
    if bytes.len() < magic.len() {
        return Err(DomainError::InvalidPdfSignature);
    }
    let mut i: usize = 0;
    while i < magic.len()
        invariant
            magic@ == pdf_signature(),
            magic@.len() == 5,
            bytes@.len() >= 5,
            i <= 5,
            forall|j: int| 0 <= j < i ==> bytes@[j] == magic@[j],
        decreases magic@.len() - i,
    {
        if bytes[i] != magic[i] {
            assert(bytes@.take(5)[i as int] != pdf_signature()[i as int]);
            proof {
                lemma_signature_is_first_five_bytes(bytes@, bytes@);
            }
            return Err(DomainError::InvalidPdfSignature);
        }
        i = i + 1;
    }
    assert(bytes@.take(5) =~= pdf_signature());
    Ok(())
}

} // verus!
