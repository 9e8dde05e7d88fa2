use vstd::prelude::*;

use crate::join::{join_with, lemma_join_with_push};

verus! {

/// The byte sequence that separates two documents in the multi-document
/// stream: a newline, three hyphen-minus bytes, and a newline.
pub open spec fn doc_sep() -> Seq<u8> {
    seq![10u8, 45u8, 45u8, 45u8, 10u8]
}

/// Whether the separator occurs in `s` starting at position `p`.
pub open spec fn sep_at(s: Seq<u8>, p: int) -> bool {
    0 <= p && p + 5 <= s.len() && s.subrange(p, p + 5) == doc_sep()
}

/// Whether the separator occurs nowhere in `s`.
pub open spec fn sep_free(s: Seq<u8>) -> bool {
    forall|p: int| !sep_at(s, p)
}

/// Whether `s` ends with the separator's first four bytes (a newline and
/// three hyphens). A document with such a tail, followed by a separator,
/// would show an earlier overlapping separator occurrence in the stream.
pub open spec fn ends_sep_prefix(s: Seq<u8>) -> bool {
    s.len() >= 4 && s.subrange(s.len() - 4, s.len() as int) == doc_sep().take(4)
}

/// The position of the leftmost separator occurrence in `s`, if any.
pub open spec fn first_sep(s: Seq<u8>) -> Option<int>
    decreases s.len(),
{
    if s.len() < 5 {
        None
    } else if sep_at(s, 0) {
        Some(0int)
    } else {
        match first_sep(s.skip(1)) {
            Some(p) => Some(p + 1),
            None => None,
        }
    }
}

/// A separator occurrence in a suffix of `s` is the same occurrence shifted.
proof fn lemma_sep_at_skip(s: Seq<u8>, k: int, p: int)
    requires
        0 <= k <= s.len(),
        0 <= p,
    ensures
        sep_at(s.skip(k), p) <==> sep_at(s, p + k),
{
    if p + k + 5 <= s.len() {
        assert(s.skip(k).subrange(p, p + 5) =~= s.subrange(p + k, p + k + 5));
    }
}

/// `first_sep` finds a separator occurrence, and the leftmost one.
proof fn lemma_first_sep(s: Seq<u8>)
    ensures
        first_sep(s) matches Some(p) ==> sep_at(s, p) && (forall|q: int| 0 <= q < p ==> !sep_at(s, q)),
        first_sep(s) is None ==> sep_free(s),
    decreases s.len(),
{
    if s.len() < 5 {
        assert forall|p: int| !sep_at(s, p) by {}
    } else if sep_at(s, 0) {
    } else {
        lemma_first_sep(s.skip(1));
        match first_sep(s.skip(1)) {
            Some(p) => {
                lemma_sep_at_skip(s, 1, p);
                assert forall|q: int| 0 <= q < p + 1 implies !sep_at(s, q) by {
                    if q > 0 {
                        lemma_sep_at_skip(s, 1, q - 1);
                    }
                }
            },
            None => {
                assert forall|q: int| !sep_at(s, q) by {
                    if q > 0 {
                        lemma_sep_at_skip(s, 1, q - 1);
                    }
                }
            },
        }
    }
}

/// A known leftmost occurrence determines `first_sep`.
proof fn lemma_first_sep_is(s: Seq<u8>, p: int)
    requires
        sep_at(s, p),
        forall|q: int| 0 <= q < p ==> !sep_at(s, q),
    ensures
        first_sep(s) == Some(p),
    decreases s.len(),
{
    if p == 0 {
    } else {
        lemma_sep_at_skip(s, 1, p - 1);
        assert forall|q: int| 0 <= q < p - 1 implies !sep_at(s.skip(1), q) by {
            lemma_sep_at_skip(s, 1, q);
        }
        lemma_first_sep_is(s.skip(1), p - 1);
    }
}

/// The documents of a multi-document stream: the stream cut at every
/// leftmost separator occurrence in turn. A stream with no separator is one
/// document; the separators themselves belong to no document.
pub open spec fn split_docs(s: Seq<u8>) -> Seq<Seq<u8>>
    decreases s.len(),
    via split_docs_dec
{
    match first_sep(s) {
        None => seq![s],
        Some(p) => seq![s.take(p)] + split_docs(s.skip(p + 5)),
    }
}

#[via_fn]
proof fn split_docs_dec(s: Seq<u8>) {
    lemma_first_sep(s);
}

/// Append the separator to `out`.
fn push_sep(out: &mut Vec<u8>)
    ensures
        final(out)@ == old(out)@ + doc_sep(),
{
    out.push(10);
    out.push(45);
    out.push(45);
    out.push(45);
    out.push(10);
    proof {
        assert(out@ =~= old(out)@ + doc_sep());
    }
}

/// Append all of `src` to `out`.
fn push_all(out: &mut Vec<u8>, src: &Vec<u8>)
    ensures
        final(out)@ == old(out)@ + src@,
{
    let mut i: usize = 0;
    while i < src.len()
        invariant
            0 <= i <= src@.len(),
            out@ == old(out)@ + src@.take(i as int),
        decreases src@.len() - i,
    {
        out.push(src[i]);
        proof {
            assert(old(out)@ + src@.take(i as int + 1) =~= (old(out)@ + src@.take(i as int)).push(
                src@[i as int],
            ));
        }
        i += 1;
    }
    proof {
        assert(old(out)@ + src@.take(src@.len() as int) =~= old(out)@ + src@);
    }
}

/// Lay the documents end to end with the separator between neighbours, as
/// the multi-document stream is written out.
pub fn join_documents(docs: &Vec<Vec<u8>>) -> (r: Vec<u8>)
    ensures
        r@ == join_with(docs.deep_view(), doc_sep()),
{
    let mut out: Vec<u8> = Vec::new();
    let mut i: usize = 0;
    while i < docs.len()
        invariant
            0 <= i <= docs@.len(),
            out@ == join_with(docs.deep_view().take(i as int), doc_sep()),
        decreases docs@.len() - i,
    {
        if i > 0 {
            push_sep(&mut out);
        }
        push_all(&mut out, &docs[i]);
        proof {
            let dv = docs.deep_view();
            assert(dv[i as int] == docs@[i as int]@);
            assert(dv.take(i as int).push(dv[i as int]) =~= dv.take(i as int + 1));
            lemma_join_with_push(dv.take(i as int), doc_sep(), dv[i as int]);
        }
        i += 1;
    }
    proof {
        assert(docs.deep_view().take(docs@.len() as int) =~= docs.deep_view());
    }
    out
}

/// The bytes of `input` from `from` (inclusive) to `to` (exclusive), as a
/// fresh vector.
fn copy_range(input: &Vec<u8>, from: usize, to: usize) -> (r: Vec<u8>)
    requires
        from <= to <= input@.len(),
    ensures
        r@ == input@.subrange(from as int, to as int),
{
    let mut out: Vec<u8> = Vec::new();
    let mut i: usize = from;
    while i < to
        invariant
            from <= i <= to <= input@.len(),
            out@ == input@.subrange(from as int, i as int),
        decreases to - i,
    {
        out.push(input[i]);
        proof {
            assert(input@.subrange(from as int, i as int + 1) =~= input@.subrange(
                from as int,
                i as int,
            ).push(input@[i as int]));
        }
        i += 1;
    }
    out
}

/// The leftmost separator occurrence at or after `from`, if any.
fn find_sep(input: &Vec<u8>, from: usize) -> (r: Option<usize>)
    requires
        from <= input@.len(),
    ensures
        r matches Some(p) ==> from <= p && p + 5 <= input@.len() && sep_at(input@, p as int) && (
        forall|q: int| from <= q < p ==> !sep_at(input@, q)),
        r is None ==> forall|q: int| from <= q ==> !sep_at(input@, q),
{
    let n = input.len();
    if n < 5 || from > n - 5 {
        return None;
    }
    let mut p: usize = from;
    while p <= n - 5
        invariant
            5 <= n == input@.len(),
            from <= p <= n - 5 + 1,
            forall|q: int| from <= q < p ==> !sep_at(input@, q),
        decreases n - p,
    {
        let hit = input[p] == 10 && input[p + 1] == 45 && input[p + 2] == 45 && input[p + 3] == 45
            && input[p + 4] == 10;
        proof {
            let q = p as int;
            assert(input@.subrange(q, q + 5)[0] == input@[q]);
            assert(input@.subrange(q, q + 5)[1] == input@[q + 1]);
            assert(input@.subrange(q, q + 5)[2] == input@[q + 2]);
            assert(input@.subrange(q, q + 5)[3] == input@[q + 3]);
            assert(input@.subrange(q, q + 5)[4] == input@[q + 4]);
            if hit {
                assert(input@.subrange(q, q + 5) =~= doc_sep());
            } else {
                assert(input@.subrange(q, q + 5) != doc_sep());
            }
        }
        if hit {
            return Some(p);
        }
        p += 1;
    }
    proof {
        assert forall|q: int| from <= q implies !sep_at(input@, q) by {
            if q + 5 <= n {
                assert(!sep_at(input@, q));
            }
        }
    }
    None
}

/// Cut a multi-document stream into its documents, at every leftmost
/// separator occurrence in turn.
#[verifier::loop_isolation(false)]
pub fn split_documents(input: &Vec<u8>) -> (r: Vec<Vec<u8>>)
    ensures
        r.deep_view() == split_docs(input@),
{
    let mut docs: Vec<Vec<u8>> = Vec::new();
    let n = input.len();
    let mut start: usize = 0;
    proof {
        assert(input@.skip(0) =~= input@);
        assert(docs.deep_view() =~= Seq::<Seq<u8>>::empty());
        assert(Seq::<Seq<u8>>::empty() + split_docs(input@) =~= split_docs(input@));
    }
    loop
        invariant
            start <= input@.len(),
            split_docs(input@) == docs.deep_view() + split_docs(input@.skip(start as int)),
        decreases input@.len() - start,
    {
        let ghost rest = input@.skip(start as int);
        let ghost prev = docs.deep_view();
        match find_sep(input, start) {
            None => {
                let last = copy_range(input, start, n);
                proof {
                    assert forall|q: int| !sep_at(rest, q) by {
                        if q >= 0 {
                            lemma_sep_at_skip(input@, start as int, q);
                        }
                    }
                    lemma_first_sep(rest);
                    match first_sep(rest) {
                        Some(_) => {
                            assert(false);
                        },
                        None => {},
                    }
                    assert(split_docs(rest) == seq![rest]);
                    assert(last@ =~= rest);
                }
                docs.push(last);
                proof {
                    assert(docs.deep_view() =~~= prev.push(rest));
                    assert(prev.push(rest) =~= prev + seq![rest]);
                    assert(docs.deep_view() == split_docs(input@));
                }
                return docs;
            },
            Some(p) => {
                let doc = copy_range(input, start, p);
                proof {
                    let s = start as int;
                    let q = p as int;
                    lemma_sep_at_skip(input@, s, q - s);
                    assert forall|q2: int| 0 <= q2 < q - s implies !sep_at(rest, q2) by {
                        lemma_sep_at_skip(input@, s, q2);
                    }
                    lemma_first_sep_is(rest, q - s);
                    assert(split_docs(rest) == seq![rest.take(q - s)] + split_docs(
                        rest.skip(q - s + 5),
                    ));
                    assert(rest.take(q - s) =~= input@.subrange(s, q));
                    assert(rest.skip(q - s + 5) =~= input@.skip(q + 5));
                }
                docs.push(doc);
                proof {
                    let q = p as int;
                    let s = start as int;
                    assert(docs.deep_view() =~~= prev + seq![rest.take(q - s)]);
                    assert((prev + seq![rest.take(q - s)]) + split_docs(rest.skip(q - s + 5)) =~=
                    prev + (seq![rest.take(q - s)] + split_docs(rest.skip(q - s + 5))));
                    assert(split_docs(input@) == docs.deep_view() + split_docs(
                        input@.skip(q + 5),
                    ));
                }
                start = p + 5;
            },
        }
    }
}

/// The stream made of one document, the separator, and more bytes shows its
/// leftmost separator exactly at the end of that document, provided the
/// document neither contains the separator nor ends with its
/// newline-and-hyphens prefix.
proof fn lemma_join_first_sep(d0: Seq<u8>, tail: Seq<u8>)
    requires
        sep_free(d0),
        !ends_sep_prefix(d0),
    ensures
        first_sep(d0 + doc_sep() + tail) == Some(d0.len() as int),
{
    let sep = doc_sep();
    let j = d0 + sep + tail;
    let b = d0.len() as int;
    assert(sep[0] == 10u8 && sep[1] == 45u8 && sep[2] == 45u8 && sep[3] == 45u8 && sep[4] == 10u8);
    assert(sep_at(j, b)) by {
        assert(j.subrange(b, b + 5) =~= sep);
    }
    assert forall|q: int| 0 <= q < b implies !sep_at(j, q) by {
        if sep_at(j, q) {
            assert(j.subrange(q, q + 5)[0] == j[q]);
            assert(j.subrange(q, q + 5)[1] == j[q + 1]);
            assert(j.subrange(q, q + 5)[2] == j[q + 2]);
            assert(j.subrange(q, q + 5)[3] == j[q + 3]);
            assert(j.subrange(q, q + 5)[4] == j[q + 4]);
            if q + 5 <= b {
                assert(j.subrange(q, q + 5) =~= d0.subrange(q, q + 5));
                assert(sep_at(d0, q));
            } else {
                let k = b - q;
                assert(1 <= k <= 4);
                assert(j[b] == sep[0]);
                if k == 1 {
                    assert(j[q + 1] == sep[1]);
                } else if k == 2 {
                    assert(j[q + 2] == sep[2]);
                } else if k == 3 {
                    assert(j[q + 3] == sep[3]);
                } else {
                    assert(d0[q] == j[q] && d0[q + 1] == j[q + 1] && d0[q + 2] == j[q + 2] && d0[q
                        + 3] == j[q + 3]);
                    assert(d0.subrange(b - 4, b) =~= sep.take(4));
                    assert(ends_sep_prefix(d0));
                }
            }
        }
    }
    lemma_first_sep_is(j, b);
}

/// A document list is recovered exactly from its joined stream: splitting
/// the join yields the original list, document for document. This holds
/// whenever no document contains the separator and no document except the
/// last ends with the separator's newline-and-hyphens prefix.
pub proof fn lemma_split_join(docs: Seq<Seq<u8>>)
    requires
        docs.len() > 0,
        forall|i: int| 0 <= i < docs.len() ==> sep_free(#[trigger] docs[i]),
        forall|i: int| 0 <= i < docs.len() - 1 ==> !ends_sep_prefix(#[trigger] docs[i]),
    ensures
        split_docs(join_with(docs, doc_sep())) == docs,
    decreases docs.len(),
{
    let sep = doc_sep();
    let j = join_with(docs, sep);
    if docs.len() == 1 {
        assert(j == docs[0]);
        lemma_first_sep(j);
        match first_sep(j) {
            Some(p) => {
                assert(sep_at(docs[0], p));
                assert(false);
            },
            None => {},
        }
        assert(split_docs(j) =~= docs);
    } else {
        let d0 = docs[0];
        let rest = docs.skip(1);
        let tail = join_with(rest, sep);
        assert(j == d0 + sep + tail);
        let b = d0.len() as int;
        lemma_join_first_sep(d0, tail);
        assert(split_docs(j) == seq![j.take(b)] + split_docs(j.skip(b + 5)));
        assert(j.take(b) =~= d0);
        assert(j.skip(b + 5) =~= tail);
        assert forall|i: int| 0 <= i < rest.len() implies sep_free(#[trigger] rest[i]) by {
            assert(rest[i] == docs[i + 1]);
        }
        assert forall|i: int| 0 <= i < rest.len() - 1 implies !ends_sep_prefix(
            #[trigger] rest[i],
        ) by {
            assert(rest[i] == docs[i + 1]);
        }
        lemma_split_join(rest);
        assert(split_docs(j) =~= docs) by {
            assert(seq![d0] + rest =~= docs);
        }
    }
}

/// Document count preservation: a joined stream splits into exactly as many
/// documents as were joined; none is merged or dropped.
pub proof fn lemma_document_count(docs: Seq<Seq<u8>>)
    requires
        docs.len() > 0,
        forall|i: int| 0 <= i < docs.len() ==> sep_free(#[trigger] docs[i]),
        forall|i: int| 0 <= i < docs.len() - 1 ==> !ends_sep_prefix(#[trigger] docs[i]),
    ensures
        split_docs(join_with(docs, doc_sep())).len() == docs.len(),
{
    lemma_split_join(docs);
}

} // verus!
