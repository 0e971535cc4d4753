//! Recovery of the XML documents that lie back to back in one file.
//!
//! Documents are found by their XML declaration alone: the text is scanned
//! from its end for the rightmost declaration, the part from there to the end
//! is a document, and the scan goes on in what precedes it. Text before the
//! first declaration is dropped; so is a whole text without a declaration,
//! which yields no document at all rather than one without a header.

use vstd::prelude::*;
use vstd::string::*;
use vstd::utf8::*;

verus! {

broadcast use vstd::utf8::group_utf8_lib;

/// The XML declaration `<?xml version="1.0" encoding="UTF-8"?>`, as bytes.
pub open spec fn xml_header() -> Seq<u8> {
    seq![
        // <?xml
        60u8, 63, 120, 109, 108, 32,
        // version="1.0"
        118, 101, 114, 115, 105, 111, 110, 61, 34, 49, 46, 48, 34, 32,
        // encoding="UTF-8"
        101, 110, 99, 111, 100, 105, 110, 103, 61, 34, 85, 84, 70, 45, 56, 34,
        // ?>
        63, 62,
    ]
}

/// The declaration occurs in `t` at byte offset `i`.
pub open spec fn header_at(t: Seq<u8>, i: int) -> bool {
    &&& 0 <= i
    &&& i + xml_header().len() <= t.len()
    &&& t.subrange(i, i + xml_header().len()) == xml_header()
}

/// The rightmost offset below `k` at which the declaration occurs in `t`,
/// or -1 where there is none.
pub open spec fn last_header_before(t: Seq<u8>, k: int) -> int
    decreases k,
{
    if k <= 0 {
        -1
    } else if header_at(t, k - 1) {
        k - 1
    } else {
        last_header_before(t, k - 1)
    }
}

/// The rightmost offset of the declaration in `t`, or -1.
pub open spec fn last_header(t: Seq<u8>) -> int {
    last_header_before(t, t.len() as int)
}

/// The documents of `t`, left to right: each runs from one declaration up to
/// the next one or to the end of `t`.
pub open spec fn split_documents(t: Seq<u8>) -> Seq<Seq<u8>>
    decreases t.len(),
{
    let i = last_header(t);
    if 0 <= i < t.len() {
        split_documents(t.subrange(0, i)).push(t.subrange(i, t.len() as int))
    } else {
        Seq::empty()
    }
}

/// The documents of a text, each as text.
pub open spec fn documents_of(text: Seq<char>) -> Seq<Seq<char>> {
    split_documents(encode_utf8(text)).map_values(|d: Seq<u8>| decode_utf8(d))
}

/// `last_header_before` is -1 or an occurrence below `k`, and no occurrence
/// lies between it and `k`.
pub proof fn lemma_last_header_before(t: Seq<u8>, k: int)
    ensures
        last_header_before(t, k) == -1 || (0 <= last_header_before(t, k) < k && header_at(
            t,
            last_header_before(t, k),
        )),
        forall|j: int| last_header_before(t, k) < j < k ==> !header_at(t, j),
    decreases k,
{
    if k > 0 && !header_at(t, k - 1) {
        lemma_last_header_before(t, k - 1);
    }
}

fn xml_header_bytes() -> (r: Vec<u8>)
    ensures
        r@ == xml_header(),
{
    let r = vec![
        // <?xml
        60u8, 63, 120, 109, 108, 32,
        // version="1.0"
        118, 101, 114, 115, 105, 111, 110, 61, 34, 49, 46, 48, 34, 32,
        // encoding="UTF-8"
        101, 110, 99, 111, 100, 105, 110, 103, 61, 34, 85, 84, 70, 45, 56, 34,
        // ?>
        63, 62,
    ];
    assert(r@ =~= xml_header());
    r
}

/// Whether the declaration `header` occurs in `t` at offset `i`.
fn header_at_exec(t: &[u8], header: &Vec<u8>, i: usize) -> (r: bool)
    requires
        header@ == xml_header(),
    ensures
        r == header_at(t@, i as int),
{
    let n = header.len();
    if n > t.len() || i > t.len() - n {
        return false;
    }
    let mut j: usize = 0;
    while j < n
        invariant
            header@ == xml_header(),
            n == header@.len(),
            i + n <= t.len(),
            j <= n,
            t@.subrange(i as int, i + j) == header@.subrange(0, j as int),
        decreases n - j,
    {
        if t[i + j] != header[j] {
            assert(t@.subrange(i as int, i + n)[j as int] == t@[i + j]);
            return false;
        }
        assert(t@.subrange(i as int, i + j + 1) =~= t@.subrange(i as int, i + j).push(t@[i + j]));
        assert(header@.subrange(0, j + 1) =~= header@.subrange(0, j as int).push(header@[j as int]));
        j = j + 1;
    }
    assert(header@.subrange(0, n as int) =~= header@);
    true
}

/// The rightmost offset of the declaration in `t`, if any.
fn find_last_header(t: &[u8], header: &Vec<u8>) -> (r: Option<usize>)
    requires
        header@ == xml_header(),
    ensures
        match r {
            Some(i) => i as int == last_header(t@),
            None => last_header(t@) == -1,
        },
{
    let mut k: usize = t.len();
    while k > 0
        invariant
            header@ == xml_header(),
            k <= t@.len(),
            last_header(t@) == last_header_before(t@, k as int),
        decreases k,
    {
        if header_at_exec(t, header, k - 1) {
            return Some(k - 1);
        }
        k = k - 1;
    }
    None
}

/// Taking the rightmost document off the end of `t` leaves the documents of
/// what precedes it.
proof fn lemma_split_peel(t: Seq<u8>)
    requires
        0 <= last_header(t) < t.len(),
    ensures
        split_documents(t) == split_documents(t.subrange(0, last_header(t))).push(
            t.subrange(last_header(t), t.len() as int),
        ),
{
}

/// Splits `all_docs_string` into the XML documents that it holds, each
/// starting with its declaration, and appends them in their order of
/// appearance to `return_vector`.
///
/// Text before the first declaration is dropped, and a text without any
/// declaration yields no document: XML without a declaration is not taken
/// for a document, so that a stray fragment is never handed to the parser.
pub fn split_xml_documents(all_docs_string: String, return_vector: &mut Vec<String>)
    ensures
        ({
            let docs = split_documents(encode_utf8(all_docs_string@));
            let n = old(return_vector)@.len();
            &&& final(return_vector)@.len() == n + docs.len()
            &&& final(return_vector)@.subrange(0, n as int) == old(return_vector)@
            &&& forall|k: int| 0 <= k < docs.len() ==> encode_utf8(#[trigger] final(return_vector)@[n + k]@) == docs[k]
            &&& forall|k: int| 0 <= k < docs.len() ==> #[trigger] final(return_vector)@[n + k]@ == documents_of(all_docs_string@)[k]
        }),
{
    let ghost all = encode_utf8(all_docs_string@);
    let header = xml_header_bytes();
    let mut residual: &str = all_docs_string.as_str();
    let mut found: Vec<String> = Vec::new();
    let ghost mut tail: Seq<Seq<u8>> = Seq::empty();
    loop
        invariant
            header@ == xml_header(),
            split_documents(all) == split_documents(residual.spec_bytes()) + tail,
            found@.len() == tail.len(),
            forall|k: int| 0 <= k < tail.len() ==> encode_utf8(#[trigger] found@[k]@) == tail[k],
    ensures
            last_header(residual.spec_bytes()) == -1,
        decreases residual.spec_bytes().len(),
    {
        let bytes = residual.as_bytes();
        let i = match find_last_header(bytes, &header) {
            Some(i) => i,
            None => break,
        };
        proof {
            let b = residual.spec_bytes();
            lemma_last_header_before(b, b.len() as int);
            assert(b.subrange(i as int, i + xml_header().len())[0] == b[i as int]);
            assert(!is_continuation_byte(b[i as int]));
            lemma_split_peel(b);
        }
        let (before, document) = residual.split_at(i);
        let ghost piece = document.spec_bytes();
        found.insert(0, document.to_owned());
        proof {
            let b = residual.spec_bytes();
            assert(split_documents(b) == split_documents(before.spec_bytes()).push(piece));
            assert(split_documents(b) + tail =~= split_documents(before.spec_bytes()) + (seq![
                piece,
            ] + tail));
            tail = seq![piece] + tail;
        }
        residual = before;
    }
    proof {
        let b = residual.spec_bytes();
        assert(split_documents(b) =~= Seq::empty());
        assert(split_documents(all) =~= tail);
    }
    let ghost old_out = return_vector@;
    let ghost found_docs = found@;
    return_vector.append(&mut found);
    proof {
        assert(return_vector@.subrange(0, old_out.len() as int) =~= old_out);
        assert forall|k: int| 0 <= k < tail.len() implies #[trigger] return_vector@[old_out.len()
            + k]@ == documents_of(all_docs_string@)[k] by {
            let s = return_vector@[old_out.len() + k]@;
            assert(return_vector@[old_out.len() + k] == found_docs[k]);
            encode_utf8_decode_utf8(s);
        }
    }
}

/// Documents written one after another, with nothing between them.
pub open spec fn concat_documents(docs: Seq<Seq<u8>>) -> Seq<u8>
    decreases docs.len(),
{
    if docs.len() == 0 {
        Seq::empty()
    } else {
        concat_documents(docs.drop_last()) + docs.last()
    }
}

/// `d` opens with the declaration and holds it nowhere else.
pub open spec fn is_single_document(d: Seq<u8>) -> bool {
    &&& header_at(d, 0)
    &&& forall|i: int| 0 < i ==> !header_at(d, i)
}

/// Where `d` is the last thing in `t` and holds the declaration only at its
/// start, the rightmost declaration of `t` is the one that opens `d`.
proof fn lemma_last_header_of_append(p: Seq<u8>, d: Seq<u8>)
    requires
        is_single_document(d),
    ensures
        last_header(p + d) == p.len(),
        (p + d).subrange(0, p.len() as int) == p,
        (p + d).subrange(p.len() as int, (p + d).len() as int) == d,
{
    let t = p + d;
    let h = xml_header().len() as int;
    assert(t.subrange(p.len() as int, p.len() + h) =~= d.subrange(0, h));
    assert(header_at(t, p.len() as int));
    assert forall|j: int| p.len() < j implies !header_at(t, j) by {
        if header_at(t, j) {
            assert(t.subrange(j, j + h) =~= d.subrange(j - p.len(), j - p.len() + h));
            assert(header_at(d, j - p.len()));
        }
    }
    lemma_last_header_before(t, t.len() as int);
    assert(t.subrange(0, p.len() as int) =~= p);
    assert(t.subrange(p.len() as int, t.len() as int) =~= d);
}

/// A single document splits into itself: splitting text that opens with the
/// declaration and holds it nowhere else gives back exactly that text.
pub proof fn lemma_split_single_document(d: Seq<u8>)
    requires
        is_single_document(d),
    ensures
        split_documents(d) == seq![d],
{
    lemma_last_header_of_append(Seq::empty(), d);
    assert(Seq::<u8>::empty() + d =~= d);
    assert(split_documents(Seq::<u8>::empty()) =~= Seq::empty());
    assert(split_documents(d) =~= seq![d]);
}

/// Splitting undoes concatenation: documents that each open with the
/// declaration and hold it nowhere else, written back to back, split into
/// exactly those documents, unchanged and in their order.
pub proof fn lemma_split_concat_round_trip(docs: Seq<Seq<u8>>)
    requires
        forall|k: int| 0 <= k < docs.len() ==> is_single_document(#[trigger] docs[k]),
    ensures
        split_documents(concat_documents(docs)) == docs,
    decreases docs.len(),
{
    if docs.len() == 0 {
        assert(split_documents(Seq::<u8>::empty()) =~= Seq::empty());
    } else {
        let p = concat_documents(docs.drop_last());
        let d = docs.last();
        assert(is_single_document(docs[docs.len() - 1]));
        lemma_last_header_of_append(p, d);
        lemma_split_concat_round_trip(docs.drop_last());
        assert(split_documents(p + d) == split_documents(p).push(d));
        assert(docs.drop_last().push(d) =~= docs);
    }
}

} // verus!
