//! Small, fully specified PDF documents for exercising the pipeline.
//!
//! Each document has a catalog (object 1), a page tree (object 2) and, for page `i`
//! (counted from 0), a page object `3 + 2i` whose content stream is object `4 + 2i` and
//! shows the text `Page i+1`. The cross-reference table records the byte offset of every
//! object.
use vstd::prelude::*;
use vstd::string::*;
use crate::decimal::{decimal_bytes, lemma_decimal_len, push_decimal, push_zero_padded_10, zero_padded_10};
use crate::domain::model::PdfBytes;
use crate::domain::pdf_utils::{has_pdf_signature, lemma_pdf_signature_bytes, pdf_signature};

verus! {

/// The bytes of an ASCII literal.
pub open spec fn ascii(s: &str) -> Seq<u8> {
    s.spec_bytes()
}

/// The file header.
pub open spec fn pdf_header() -> Seq<u8> {
    ascii("%PDF-1.4\n")
}

/// The body of object 1, the document catalog.
pub open spec fn catalog_dict() -> Seq<u8> {
    ascii("<< /Type /Catalog /Pages 2 0 R >>")
}

/// The object number of page `i` (counted from 0).
pub open spec fn page_object_number(i: nat) -> nat {
    3 + 2 * i
}

/// The object number of the content stream of page `i` (counted from 0).
pub open spec fn content_object_number(i: nat) -> nat {
    4 + 2 * i
}

/// A reference to page `i`.
pub open spec fn kid_ref(i: nat) -> Seq<u8> {
    decimal_bytes(page_object_number(i)) + ascii(" 0 R")
}

/// The references to the first `k` pages, separated by single spaces.
pub open spec fn kid_refs(k: nat) -> Seq<u8>
    decreases k,
{
    if k == 0 {
        Seq::empty()
    } else if k == 1 {
        kid_ref(0)
    } else {
        kid_refs((k - 1) as nat) + ascii(" ") + kid_ref((k - 1) as nat)
    }
}

/// The body of object 2, the page tree of `n` pages.
pub open spec fn pages_dict(n: nat) -> Seq<u8> {
    ascii("<< /Type /Pages /Kids [") + kid_refs(n) + ascii("] /Count ") + decimal_bytes(n)
        + ascii(" >>")
}

/// The body of the object of page `i`.
pub open spec fn page_dict(i: nat) -> Seq<u8> {
    ascii("<< /Type /Page /Parent 2 0 R /MediaBox [0 0 612 792] /Contents ") + decimal_bytes(
        content_object_number(i),
    ) + ascii(
        " 0 R /Resources << /Font << /F1 << /Type /Font /Subtype /Type1 /BaseFont /Helvetica >> >> >> >>",
    )
}

/// The text operators of page `i`: they show `Page i+1`.
pub open spec fn page_text_ops(i: nat) -> Seq<u8> {
    ascii("BT /F1 12 Tf 72 720 Td (Page ") + decimal_bytes(i + 1) + ascii(") Tj ET")
}

/// The readable content stream of page `i`.
pub open spec fn content_stream(i: nat) -> Seq<u8> {
    ascii("<< /Length ") + decimal_bytes(page_text_ops(i).len() + 1) + ascii(" >>\nstream\n")
        + page_text_ops(i) + ascii("\nendstream")
}

/// A content stream that claims Flate compression but holds no Flate data.
pub open spec fn unreadable_stream() -> Seq<u8> {
    ascii("<< /Length 4 /Filter /FlateDecode >>\nstream\nnot-valid-flate\nendstream")
}

/// Whether page `i` is the unreadable one.
pub open spec fn is_broken(i: nat, broken: Option<usize>) -> bool {
    broken matches Some(b) && b == i
}

/// The content stream of page `i`.
pub open spec fn page_content(i: nat, broken: Option<usize>) -> Seq<u8> {
    if is_broken(i, broken) {
        unreadable_stream()
    } else {
        content_stream(i)
    }
}

/// The page and content objects of the first `k` pages, as (object number, body).
pub open spec fn page_objects(k: nat, broken: Option<usize>) -> Seq<(nat, Seq<u8>)>
    decreases k,
{
    if k == 0 {
        Seq::empty()
    } else {
        let i = (k - 1) as nat;
        page_objects(i, broken) + seq![
            (page_object_number(i), page_dict(i)),
            (content_object_number(i), page_content(i, broken)),
        ]
    }
}

/// All objects of a document of `n` pages, in file order.
pub open spec fn pdf_objects(n: nat, broken: Option<usize>) -> Seq<(nat, Seq<u8>)> {
    seq![(1nat, catalog_dict()), (2nat, pages_dict(n))] + page_objects(n, broken)
}

/// One indirect object as it stands in the file.
pub open spec fn object_bytes(obj: (nat, Seq<u8>)) -> Seq<u8> {
    decimal_bytes(obj.0) + ascii(" 0 obj\n") + obj.1 + ascii("\nendobj\n")
}

/// The objects `objs` one after another.
pub open spec fn objects_bytes(objs: Seq<(nat, Seq<u8>)>) -> Seq<u8>
    decreases objs.len(),
{
    if objs.len() == 0 {
        Seq::empty()
    } else {
        objects_bytes(objs.drop_last()) + object_bytes(objs.last())
    }
}

/// The byte offset at which object `k` of `objs` starts.
pub open spec fn object_offset(objs: Seq<(nat, Seq<u8>)>, k: int) -> nat {
    pdf_header().len() + objects_bytes(objs.take(k)).len()
}

/// The cross-reference entries of the first `k` objects.
pub open spec fn xref_entries(objs: Seq<(nat, Seq<u8>)>, k: nat) -> Seq<u8>
    decreases k,
{
    if k == 0 {
        Seq::empty()
    } else {
        xref_entries(objs, (k - 1) as nat) + zero_padded_10(object_offset(objs, k - 1)) + ascii(
            " 00000 n \n",
        )
    }
}

/// The cross-reference table, trailer and end marker of a file whose table starts at `start`.
pub open spec fn xref_section(objs: Seq<(nat, Seq<u8>)>, start: nat) -> Seq<u8> {
    let size = objs.len() + 1;
    ascii("xref\n0 ") + decimal_bytes(size) + ascii("\n0000000000 65535 f \n") + xref_entries(
        objs,
        objs.len(),
    ) + ascii("trailer\n<< /Size ") + decimal_bytes(size) + ascii(" /Root 1 0 R >>\nstartxref\n")
        + decimal_bytes(start) + ascii("\n%%EOF\n")
}

/// The bytes before the cross-reference table.
pub open spec fn pdf_body(n: nat, broken: Option<usize>) -> Seq<u8> {
    pdf_header() + objects_bytes(pdf_objects(n, broken))
}

/// The whole document of `n` pages, where page `broken`, if any, cannot be read.
pub open spec fn test_pdf(n: nat, broken: Option<usize>) -> Seq<u8> {
    pdf_body(n, broken) + xref_section(pdf_objects(n, broken), pdf_body(n, broken).len())
}

/// The page counts for which the object numbers fit in a `usize`.
pub open spec fn page_count_fits(n: nat) -> bool {
    2 * n + 4 <= usize::MAX
}

proof fn lemma_objects_bytes_push(objs: Seq<(nat, Seq<u8>)>, o: (nat, Seq<u8>))
    ensures
        objects_bytes(objs.push(o)) == objects_bytes(objs) + object_bytes(o),
        forall|k: int| 0 <= k <= objs.len() ==> #[trigger] objs.push(o).take(k) == objs.take(k),
{
    assert(objs.push(o).drop_last() =~= objs);
    assert forall|k: int| 0 <= k <= objs.len() implies #[trigger] objs.push(o).take(k) == objs.take(k) by {
        assert(objs.push(o).take(k) =~= objs.take(k));
    }
}

fn push_str(out: &mut Vec<u8>, s: &str)
    ensures
        final(out)@ == old(out)@ + ascii(s),
{
    out.extend_from_slice(s.as_bytes());
    assert(out@ =~= old(out)@ + ascii(s));
}

/// Appends one indirect object to `bytes` and records its offset and number in `objects`.
fn push_object(num: usize, raw: &[u8], objects: &mut Vec<(usize, usize)>, bytes: &mut Vec<u8>)
    ensures
        final(bytes)@ == old(bytes)@ + object_bytes((num as nat, raw@)),
        final(objects)@ == old(objects)@.push((old(bytes)@.len() as usize, num)),
{
    let offset = bytes.len();
    push_decimal(bytes, num);
    push_str(bytes, " 0 obj\n");
    bytes.extend_from_slice(raw);
    push_str(bytes, "\nendobj\n");
    objects.push((offset, num));
    assert(bytes@ =~= old(bytes)@ + object_bytes((num as nat, raw@)));
}

/// The offsets and numbers recorded in `objects` are those of `objs` laid out after the header.
spec fn records_match(objects: Seq<(usize, usize)>, objs: Seq<(nat, Seq<u8>)>) -> bool {
    &&& objects.len() == objs.len()
    &&& forall|k: int|
        0 <= k < objs.len() ==> #[trigger] objects[k].0 == object_offset(objs, k) && objects[k].1
            == objs[k].0
}

proof fn lemma_records_push(
    objects: Seq<(usize, usize)>,
    objs: Seq<(nat, Seq<u8>)>,
    o: (nat, Seq<u8>),
    offset: usize,
)
    requires
        records_match(objects, objs),
        offset == pdf_header().len() + objects_bytes(objs).len(),
        o.0 <= usize::MAX,
    ensures
        records_match(objects.push((offset, o.0 as usize)), objs.push(o)),
{
    lemma_objects_bytes_push(objs, o);
    assert(objs.push(o).take(objs.len() as int) =~= objs);
    let n = objs.len() as int;
    let obs = objects.push((offset, o.0 as usize));
    let ojs = objs.push(o);
    assert forall|k: int| 0 <= k < ojs.len() implies #[trigger] obs[k].0 == object_offset(ojs, k)
        && obs[k].1 == ojs[k].0 by {
        if k < n {
            assert(ojs.take(k) == objs.take(k));
            assert(obs[k] == objects[k]);
            assert(objects[k].0 == object_offset(objs, k) && objects[k].1 == objs[k].0);
        } else {
            assert(ojs.take(k) =~= objs);
        }
    }
    assert(records_match(obs, ojs));
}

proof fn lemma_page_objects_len(k: nat, broken: Option<usize>)
    ensures
        page_objects(k, broken).len() == 2 * k,
    decreases k,
{
    if k > 0 {
        lemma_page_objects_len((k - 1) as nat, broken);
    }
}

proof fn lemma_page_text_ops_len(i: nat)
    ensures
        page_text_ops(i).len() <= 37 + i,
{
    let head: &str = "BT /F1 12 Tf 72 720 Td (Page ";
    let tail: &str = ") Tj ET";
    reveal_strlit("BT /F1 12 Tf 72 720 Td (Page ");
    reveal_strlit(") Tj ET");
    assert(is_ascii(head));
    assert(is_ascii(tail));
    is_ascii_spec_bytes(head);
    is_ascii_spec_bytes(tail);
    lemma_decimal_len(i + 1);
}

/// Appends one object and keeps the record of offsets in step with the objects laid out so far.
fn push_recorded_object(
    num: usize,
    raw: &[u8],
    objects: &mut Vec<(usize, usize)>,
    bytes: &mut Vec<u8>,
    Ghost(objs): Ghost<Seq<(nat, Seq<u8>)>>,
)
    requires
        old(bytes)@ == pdf_header() + objects_bytes(objs),
        records_match(old(objects)@, objs),
    ensures
        final(bytes)@ == pdf_header() + objects_bytes(objs.push((num as nat, raw@))),
        records_match(final(objects)@, objs.push((num as nat, raw@))),
{
    proof {
        lemma_records_push(objects@, objs, (num as nat, raw@), bytes.len());
        lemma_objects_bytes_push(objs, (num as nat, raw@));
    }
    push_object(num, raw, objects, bytes);
    assert(bytes@ =~= pdf_header() + objects_bytes(objs.push((num as nat, raw@))));
}

/// The body of the object of page `i`.
fn page_dict_bytes(i: usize) -> (raw: Vec<u8>)
    requires
        2 * i + 4 <= usize::MAX,
    ensures
        raw@ == page_dict(i as nat),
{
    let mut raw: Vec<u8> = Vec::new();
    push_str(&mut raw, "<< /Type /Page /Parent 2 0 R /MediaBox [0 0 612 792] /Contents ");
    push_decimal(&mut raw, 4 + 2 * i);
    push_str(
        &mut raw,
        " 0 R /Resources << /Font << /F1 << /Type /Font /Subtype /Type1 /BaseFont /Helvetica >> >> >> >>",
    );
    assert(raw@ =~= page_dict(i as nat));
    raw
}

/// The content stream of page `i`.
fn page_content_bytes(i: usize, broken_page: Option<usize>) -> (raw: Vec<u8>)
    requires
        2 * i + 4 <= usize::MAX,
    ensures
        raw@ == page_content(i as nat, broken_page),
{
    let mut raw: Vec<u8> = Vec::new();
    let broken = match broken_page {
        Some(b) => b == i,
        None => false,
    };
    if broken {
        push_str(&mut raw, "<< /Length 4 /Filter /FlateDecode >>\nstream\nnot-valid-flate\nendstream");
    } else {
        let mut text: Vec<u8> = Vec::new();
        push_str(&mut text, "BT /F1 12 Tf 72 720 Td (Page ");
        push_decimal(&mut text, i + 1);
        push_str(&mut text, ") Tj ET");
        assert(text@ =~= page_text_ops(i as nat));
        proof {
            lemma_page_text_ops_len(i as nat);
        }
        push_str(&mut raw, "<< /Length ");
        push_decimal(&mut raw, text.len() + 1);
        push_str(&mut raw, " >>\nstream\n");
        raw.extend_from_slice(text.as_slice());
        push_str(&mut raw, "\nendstream");
    }
    assert(raw@ =~= page_content(i as nat, broken_page));
    raw
}

/// The body of the page tree of `page_count` pages.
fn pages_dict_bytes(page_count: usize) -> (raw: Vec<u8>)
    requires
        page_count_fits(page_count as nat),
    ensures
        raw@ == pages_dict(page_count as nat),
{
    let mut kids: Vec<u8> = Vec::new();
    let mut i: usize = 0;
    while i < page_count
        invariant
            i <= page_count,
            page_count_fits(page_count as nat),
            kids@ == kid_refs(i as nat),
        decreases page_count - i,
    {
        if i > 0 {
            push_str(&mut kids, " ");
        }
        push_decimal(&mut kids, 3 + 2 * i);
        push_str(&mut kids, " 0 R");
        assert(kids@ =~= kid_refs((i + 1) as nat));
        i = i + 1;
    }
    let mut raw: Vec<u8> = Vec::new();
    push_str(&mut raw, "<< /Type /Pages /Kids [");
    raw.extend_from_slice(kids.as_slice());
    push_str(&mut raw, "] /Count ");
    push_decimal(&mut raw, page_count);
    push_str(&mut raw, " >>");
    assert(raw@ =~= pages_dict(page_count as nat));
    raw
}

/// The cross-reference table, trailer and end marker for the recorded objects.
fn xref_section_bytes(objects: &Vec<(usize, usize)>, xref_offset: usize, Ghost(objs): Ghost<Seq<(nat, Seq<u8>)>>) -> (xref: Vec<u8>)
    requires
        records_match(objects@, objs),
        objects@.len() < usize::MAX,
    ensures
        xref@ == xref_section(objs, xref_offset as nat),
{
    let size = objects.len() + 1;
    let mut xref: Vec<u8> = Vec::new();
    push_str(&mut xref, "xref\n0 ");
    push_decimal(&mut xref, size);
    push_str(&mut xref, "\n0000000000 65535 f \n");
    let ghost head = xref@;
    let mut k: usize = 0;
    while k < objects.len()
        invariant
            k <= objects@.len(),
            records_match(objects@, objs),
            xref@ == head + xref_entries(objs, k as nat),
        decreases objects@.len() - k,
    {
        let (offset, _num) = objects[k];
        push_zero_padded_10(&mut xref, offset);
        push_str(&mut xref, " 00000 n \n");
        assert(xref@ =~= head + xref_entries(objs, (k + 1) as nat));
        k = k + 1;
    }
    push_str(&mut xref, "trailer\n<< /Size ");
    push_decimal(&mut xref, size);
    push_str(&mut xref, " /Root 1 0 R >>\nstartxref\n");
    push_decimal(&mut xref, xref_offset);
    push_str(&mut xref, "\n%%EOF\n");
    assert(xref@ =~= xref_section(objs, xref_offset as nat));
    xref
}

/// Builds the document of `page_count` pages in which page `broken_page`, if any, is unreadable.
fn build_test_pdf(page_count: usize, broken_page: Option<usize>) -> (bytes: Vec<u8>)
    requires
        page_count_fits(page_count as nat),
    ensures
        bytes@ == test_pdf(page_count as nat, broken_page),
{
    let ghost n = page_count as nat;
    let mut bytes: Vec<u8> = Vec::new();
    push_str(&mut bytes, "%PDF-1.4\n");
    let mut objects: Vec<(usize, usize)> = Vec::new();
    assert(bytes@ =~= pdf_header() + objects_bytes(Seq::empty()));

    let mut catalog: Vec<u8> = Vec::new();
    push_str(&mut catalog, "<< /Type /Catalog /Pages 2 0 R >>");
    push_recorded_object(1, catalog.as_slice(), &mut objects, &mut bytes, Ghost(Seq::empty()));
    let pages_raw = pages_dict_bytes(page_count);
    let ghost objs1 = Seq::<(nat, Seq<u8>)>::empty().push((1nat, catalog_dict()));
    push_recorded_object(2, pages_raw.as_slice(), &mut objects, &mut bytes, Ghost(objs1));
    let ghost mut objs = objs1.push((2nat, pages_dict(n)));
    assert(objs =~= seq![(1nat, catalog_dict()), (2nat, pages_dict(n))] + page_objects(0, broken_page));

    let mut i: usize = 0;
    while i < page_count
        invariant
            i <= page_count,
            n == page_count,
            page_count_fits(n),
            objs == seq![(1nat, catalog_dict()), (2nat, pages_dict(n))] + page_objects(i as nat, broken_page),
            bytes@ == pdf_header() + objects_bytes(objs),
            records_match(objects@, objs),
        decreases page_count - i,
    {
        let page_raw = page_dict_bytes(i);
        push_recorded_object(3 + 2 * i, page_raw.as_slice(), &mut objects, &mut bytes, Ghost(objs));
        let ghost objs_p = objs.push((page_object_number(i as nat), page_dict(i as nat)));
        let content_raw = page_content_bytes(i, broken_page);
        push_recorded_object(4 + 2 * i, content_raw.as_slice(), &mut objects, &mut bytes, Ghost(objs_p));
        proof {
            objs = objs_p.push((content_object_number(i as nat), page_content(i as nat, broken_page)));
            assert(objs =~= seq![(1nat, catalog_dict()), (2nat, pages_dict(n))] + page_objects(
                (i + 1) as nat,
                broken_page,
            ));
        }
        i = i + 1;
    }
    assert(objs == pdf_objects(n, broken_page));
    proof {
        lemma_page_objects_len(n, broken_page);
    }
    let xref_offset = bytes.len();
    let xref = xref_section_bytes(&objects, xref_offset, Ghost(objs));
    bytes.extend_from_slice(xref.as_slice());
    assert(bytes@ =~= test_pdf(n, broken_page));
    bytes
}

/// The bytes of a readable document of `page_count` pages.
fn _valid_pdf_bytes(page_count: usize) -> (bytes: Vec<u8>)
    requires
        page_count_fits(page_count as nat),
    ensures
        bytes@ == test_pdf(page_count as nat, None),
{
    build_test_pdf(page_count, None)
}

/// The bytes of a document of `page_count` pages whose page `broken_page` (counted from 0)
/// has an undecodable content stream.
fn _pdf_with_unreadable_page(page_count: usize, broken_page: usize) -> (bytes: Vec<u8>)
    requires
        page_count_fits(page_count as nat),
        broken_page < page_count,
    ensures
        bytes@ == test_pdf(page_count as nat, Some(broken_page)),
{
    build_test_pdf(page_count, Some(broken_page))
}

/// The bytes of a readable document of `page_count` pages.
pub fn valid_pdf_bytes(page_count: usize) -> (bytes: Vec<u8>)
    requires
        page_count_fits(page_count as nat),
    ensures
        bytes@ == test_pdf(page_count as nat, None),
{
    _valid_pdf_bytes(page_count)
}

/// The bytes of a document whose page `broken_page` (counted from 0) cannot be read.
pub fn pdf_with_unreadable_page(page_count: usize, broken_page: usize) -> (bytes: Vec<u8>)
    requires
        page_count_fits(page_count as nat),
        broken_page < page_count,
    ensures
        bytes@ == test_pdf(page_count as nat, Some(broken_page)),
{
    _pdf_with_unreadable_page(page_count, broken_page)
}

/// A readable document of `page_count` pages.
pub fn valid_pdf(page_count: usize) -> (pdf: PdfBytes)
    requires
        page_count_fits(page_count as nat),
    ensures
        pdf@ == test_pdf(page_count as nat, None),
{
    PdfBytes::new(_valid_pdf_bytes(page_count))
}

/// A document whose page `broken_page` (counted from 0) cannot be read.
pub fn broken_pdf(page_count: usize, broken_page: usize) -> (pdf: PdfBytes)
    requires
        page_count_fits(page_count as nat),
        broken_page < page_count,
    ensures
        pdf@ == test_pdf(page_count as nat, Some(broken_page)),
{
    PdfBytes::new(_pdf_with_unreadable_page(page_count, broken_page))
}

proof fn lemma_prefix_of_concat(a: Seq<u8>, b: Seq<u8>, k: int)
    requires
        0 <= k <= a.len(),
    ensures
        (a + b).take(k) == a.take(k),
{
    assert((a + b).take(k) =~= a.take(k));
}

/// Every generated document opens with the PDF signature.
pub proof fn lemma_test_pdf_has_signature(n: nat, broken: Option<usize>)
    ensures
        has_pdf_signature(test_pdf(n, broken)),
{
    let header: &str = "%PDF-1.4\n";
    reveal_strlit("%PDF-1.4\n");
    assert(is_ascii(header));
    is_ascii_spec_bytes(header);
    lemma_pdf_signature_bytes();
    let objs = pdf_objects(n, broken);
    let rest = objects_bytes(objs) + xref_section(objs, pdf_body(n, broken).len());
    assert(test_pdf(n, broken) =~= pdf_header() + rest);
    lemma_prefix_of_concat(pdf_header(), rest, 5);
    assert(pdf_header().take(5) =~= pdf_signature());
}

proof fn lemma_page_objects_numbers(k: nat, broken: Option<usize>, j: int)
    requires
        0 <= j < 2 * k,
    ensures
        page_objects(k, broken).len() == 2 * k,
        page_objects(k, broken)[j].0 == j + 3,
    decreases k,
{
    lemma_page_objects_len(k, broken);
    let i = (k - 1) as nat;
    lemma_page_objects_len(i, broken);
    if j < 2 * i {
        lemma_page_objects_numbers(i, broken, j);
    }
}

/// Objects are numbered 1, 2, 3, ... in the order in which they stand in the file,
/// which is what the cross-reference table, indexed by object number, assumes.
pub proof fn lemma_objects_numbered_in_order(n: nat, broken: Option<usize>, k: int)
    requires
        0 <= k < pdf_objects(n, broken).len(),
    ensures
        pdf_objects(n, broken).len() == 2 * n + 2,
        pdf_objects(n, broken)[k].0 == k + 1,
{
    lemma_page_objects_len(n, broken);
    if k >= 2 {
        lemma_page_objects_numbers(n, broken, k - 2);
    }
}

proof fn lemma_objects_bytes_take(objs: Seq<(nat, Seq<u8>)>, k: int)
    requires
        0 <= k < objs.len(),
    ensures
        objects_bytes(objs.take(k + 1)) == objects_bytes(objs.take(k)) + object_bytes(objs[k]),
        objects_bytes(objs) == objects_bytes(objs.take(k + 1)) + objects_bytes(objs.skip(k + 1)),
    decreases objs.len(),
{
    assert(objs.take(k + 1).drop_last() =~= objs.take(k));
    lemma_objects_bytes_split(objs, k + 1);
}

proof fn lemma_objects_bytes_split(objs: Seq<(nat, Seq<u8>)>, k: int)
    requires
        0 <= k <= objs.len(),
    ensures
        objects_bytes(objs) == objects_bytes(objs.take(k)) + objects_bytes(objs.skip(k)),
    decreases objs.len(),
{
    if k == objs.len() {
        assert(objs.take(k) =~= objs);
        assert(objs.skip(k) =~= Seq::<(nat, Seq<u8>)>::empty());
        assert(objects_bytes(objs.skip(k)) =~= Seq::<u8>::empty());
        assert(objects_bytes(objs) =~= objects_bytes(objs.take(k)) + objects_bytes(objs.skip(k)));
    } else {
        lemma_objects_bytes_split(objs.drop_last(), k);
        assert(objs.drop_last().take(k) =~= objs.take(k));
        assert(objs.skip(k).drop_last() =~= objs.drop_last().skip(k));
        assert(objs.skip(k).last() == objs.last());
        assert(objects_bytes(objs) =~= objects_bytes(objs.take(k)) + objects_bytes(objs.skip(k)));
    }
}

/// The cross-reference entry of object `k + 1` holds the offset at which that object's
/// header `k+1 0 obj` stands in the file.
pub proof fn lemma_xref_entry_locates_object(n: nat, broken: Option<usize>, k: int)
    requires
        0 <= k < pdf_objects(n, broken).len(),
    ensures
        ({
            let objs = pdf_objects(n, broken);
            let off = object_offset(objs, k) as int;
            let head = decimal_bytes((k + 1) as nat) + ascii(" 0 obj\n");
            test_pdf(n, broken).subrange(off, off + head.len()) == head
        }),
{
    let objs = pdf_objects(n, broken);
    lemma_objects_numbered_in_order(n, broken, k);
    lemma_objects_bytes_take(objs, k);
    let off = object_offset(objs, k) as int;
    let head = decimal_bytes((k + 1) as nat) + ascii(" 0 obj\n");
    let before = pdf_header() + objects_bytes(objs.take(k));
    let after = object_bytes(objs[k]) + objects_bytes(objs.skip(k + 1)) + xref_section(
        objs,
        pdf_body(n, broken).len(),
    );
    assert(test_pdf(n, broken) =~= before + after);
    assert(before.len() == off);
    assert(object_bytes(objs[k]) =~= head + objs[k].1 + ascii("\nendobj\n"));
    assert((before + after).subrange(off, off + head.len()) =~= after.subrange(0, head.len() as int));
    assert(after.subrange(0, head.len() as int) =~= head);
}

/// The `startxref` value is the offset at which the cross-reference table begins.
pub proof fn lemma_startxref_locates_table(n: nat, broken: Option<usize>)
    ensures
        ({
            let start = pdf_body(n, broken).len() as int;
            let head = ascii("xref\n0 ");
            &&& test_pdf(n, broken).subrange(start, start + head.len()) == head
            &&& test_pdf(n, broken).subrange(0, start) == pdf_body(n, broken)
        }),
{
    let start = pdf_body(n, broken).len() as int;
    let head = ascii("xref\n0 ");
    let xs = xref_section(pdf_objects(n, broken), start as nat);
    assert(test_pdf(n, broken) == pdf_body(n, broken) + xs);
    assert((pdf_body(n, broken) + xs).subrange(start, start + head.len()) =~= xs.subrange(0, head.len() as int));
    assert(xs.subrange(0, head.len() as int) =~= head);
    assert((pdf_body(n, broken) + xs).subrange(0, start) =~= pdf_body(n, broken));
}

proof fn lemma_page_objects_broken(k: nat, b: usize)
    requires
        b < k,
    ensures
        page_objects(k, Some(b)) == page_objects(k, None).update(
            2 * b + 1,
            (content_object_number(b as nat), unreadable_stream()),
        ),
    decreases k,
{
    let i = (k - 1) as nat;
    lemma_page_objects_len(i, None);
    lemma_page_objects_len(i, Some(b));
    if b < i {
        lemma_page_objects_broken(i, b);
    } else {
        lemma_page_objects_same(i, b);
    }
    assert(page_objects(k, Some(b)) =~= page_objects(k, None).update(
        2 * b + 1,
        (content_object_number(b as nat), unreadable_stream()),
    ));
}

proof fn lemma_page_objects_same(k: nat, b: usize)
    requires
        k <= b,
    ensures
        page_objects(k, Some(b)) == page_objects(k, None),
    decreases k,
{
    if k > 0 {
        lemma_page_objects_same((k - 1) as nat, b);
    }
}

/// A document with an unreadable page differs from the readable one of the same size in
/// that page's content stream only.
pub proof fn lemma_unreadable_page_is_only_difference(n: nat, b: usize)
    requires
        b < n,
    ensures
        pdf_objects(n, Some(b)) == pdf_objects(n, None).update(
            2 * b + 3,
            (content_object_number(b as nat), unreadable_stream()),
        ),
{
    lemma_page_objects_broken(n, b);
    lemma_page_objects_len(n, None);
    assert(pdf_objects(n, Some(b)) =~= pdf_objects(n, None).update(
        2 * b + 3,
        (content_object_number(b as nat), unreadable_stream()),
    ));
}

} // verus!
