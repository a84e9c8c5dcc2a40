//! The persisted form of a document tree: a flat token stream that can be
//! written to disk and read back with full fidelity.
//!
//! Each node is one tag token, followed for leaves by a character count and
//! the character code points, and for containers by a child count and the
//! encoded children. Decoding is the exact inverse; the round trip is proved
//! in `lemma_round_trip`.

use crate::text::{is_char_code, push_char};
use crate::transform::{lemma_seq_doc_view, sds_view, seq_doc_view, DocView, SpellDescriptionStruct};
use vstd::prelude::*;

verus! {

/// The tag token of each document-tree variant.
pub open spec fn code_of(v: DocView) -> u64 {
    match v {
        DocView::Body(_) => 0,
        DocView::Paragraph(_) => 1,
        DocView::Caption(_) => 2,
        DocView::Italics(_) => 3,
        DocView::Bold(_) => 4,
        DocView::Sup(_) => 5,
        DocView::Br => 6,
        DocView::Listing(_) => 7,
        DocView::Line(_) => 8,
        DocView::Table(_) => 9,
        DocView::Tbody(_) => 10,
        DocView::Thead(_) => 11,
        DocView::Tfoot(_) => 12,
        DocView::Row(_) => 13,
        DocView::Header(_) => 14,
        DocView::Cell(_) => 15,
        DocView::Text(_) => 16,
    }
}

/// The tag tokens that belong to container variants.
pub open spec fn is_container_code(c: u64) -> bool {
    c == 0 || c == 1 || c == 2 || c == 5 || c == 7 || c == 8 || c == 9 || c == 10 || c == 11 || c
        == 12 || c == 13 || c == 14 || c == 15
}

/// The tag tokens that belong to the three text-carrying leaf variants.
pub open spec fn is_text_code(c: u64) -> bool {
    c == 3 || c == 4 || c == 16
}

/// The container variant that a tag token names, applied to the children.
pub open spec fn container_of_code(c: u64, ks: Seq<DocView>) -> DocView {
    if c == 0 {
        DocView::Body(ks)
    } else if c == 1 {
        DocView::Paragraph(ks)
    } else if c == 2 {
        DocView::Caption(ks)
    } else if c == 5 {
        DocView::Sup(ks)
    } else if c == 7 {
        DocView::Listing(ks)
    } else if c == 8 {
        DocView::Line(ks)
    } else if c == 9 {
        DocView::Table(ks)
    } else if c == 10 {
        DocView::Tbody(ks)
    } else if c == 11 {
        DocView::Thead(ks)
    } else if c == 12 {
        DocView::Tfoot(ks)
    } else if c == 13 {
        DocView::Row(ks)
    } else if c == 14 {
        DocView::Header(ks)
    } else {
        DocView::Cell(ks)
    }
}

/// The leaf variant that a text tag token names, holding the given text.
pub open spec fn text_of_code(c: u64, s: Seq<char>) -> DocView {
    if c == 3 {
        DocView::Italics(s)
    } else if c == 4 {
        DocView::Bold(s)
    } else {
        DocView::Text(s)
    }
}

/// The code points of a character sequence, one token per character.
pub open spec fn spec_chars(s: Seq<char>) -> Seq<u64> {
    Seq::new(s.len(), |i: int| (s[i] as u32) as u64)
}

/// The characters named by a sequence of code-point tokens.
pub open spec fn decode_chars(cs: Seq<u64>) -> Seq<char> {
    Seq::new(cs.len(), |i: int| (cs[i] as u32) as char)
}

/// Do all tokens name characters?
pub open spec fn all_char_codes(cs: Seq<u64>) -> bool {
    forall|i: int| 0 <= i < cs.len() ==> is_char_code(#[trigger] cs[i])
}

/// The encoding of one document tree.
pub open spec fn spec_ser(v: DocView) -> Seq<u64>
    decreases v, 0int,
{
    match v {
        DocView::Body(cs) => seq![0u64, cs.len() as u64] + spec_ser_seq(cs),
        DocView::Paragraph(cs) => seq![1u64, cs.len() as u64] + spec_ser_seq(cs),
        DocView::Caption(cs) => seq![2u64, cs.len() as u64] + spec_ser_seq(cs),
        DocView::Italics(s) => seq![3u64, s.len() as u64] + spec_chars(s),
        DocView::Bold(s) => seq![4u64, s.len() as u64] + spec_chars(s),
        DocView::Sup(cs) => seq![5u64, cs.len() as u64] + spec_ser_seq(cs),
        DocView::Br => seq![6u64],
        DocView::Listing(cs) => seq![7u64, cs.len() as u64] + spec_ser_seq(cs),
        DocView::Line(cs) => seq![8u64, cs.len() as u64] + spec_ser_seq(cs),
        DocView::Table(cs) => seq![9u64, cs.len() as u64] + spec_ser_seq(cs),
        DocView::Tbody(cs) => seq![10u64, cs.len() as u64] + spec_ser_seq(cs),
        DocView::Thead(cs) => seq![11u64, cs.len() as u64] + spec_ser_seq(cs),
        DocView::Tfoot(cs) => seq![12u64, cs.len() as u64] + spec_ser_seq(cs),
        DocView::Row(cs) => seq![13u64, cs.len() as u64] + spec_ser_seq(cs),
        DocView::Header(cs) => seq![14u64, cs.len() as u64] + spec_ser_seq(cs),
        DocView::Cell(cs) => seq![15u64, cs.len() as u64] + spec_ser_seq(cs),
        DocView::Text(s) => seq![16u64, s.len() as u64] + spec_chars(s),
    }
}

/// The encodings of a sequence of document trees, concatenated in order.
pub open spec fn spec_ser_seq(cs: Seq<DocView>) -> Seq<u64>
    decreases cs, 1int,
{
    if cs.len() == 0 {
        Seq::empty()
    } else {
        spec_ser(cs[0]) + spec_ser_seq(cs.drop_first())
    }
}

/// A document tree whose text lengths and child counts each fit in one
/// token. Every tree that exists in memory is bounded; the predicate only
/// excludes mathematical trees too wide to ever be built.
pub open spec fn bounded(v: DocView) -> bool
    decreases v, 0int,
{
    match v {
        DocView::Body(cs) => cs.len() <= u64::MAX && bounded_seq(cs),
        DocView::Paragraph(cs) => cs.len() <= u64::MAX && bounded_seq(cs),
        DocView::Caption(cs) => cs.len() <= u64::MAX && bounded_seq(cs),
        DocView::Italics(s) => s.len() <= u64::MAX,
        DocView::Bold(s) => s.len() <= u64::MAX,
        DocView::Sup(cs) => cs.len() <= u64::MAX && bounded_seq(cs),
        DocView::Br => true,
        DocView::Listing(cs) => cs.len() <= u64::MAX && bounded_seq(cs),
        DocView::Line(cs) => cs.len() <= u64::MAX && bounded_seq(cs),
        DocView::Table(cs) => cs.len() <= u64::MAX && bounded_seq(cs),
        DocView::Tbody(cs) => cs.len() <= u64::MAX && bounded_seq(cs),
        DocView::Thead(cs) => cs.len() <= u64::MAX && bounded_seq(cs),
        DocView::Tfoot(cs) => cs.len() <= u64::MAX && bounded_seq(cs),
        DocView::Row(cs) => cs.len() <= u64::MAX && bounded_seq(cs),
        DocView::Header(cs) => cs.len() <= u64::MAX && bounded_seq(cs),
        DocView::Cell(cs) => cs.len() <= u64::MAX && bounded_seq(cs),
        DocView::Text(s) => s.len() <= u64::MAX,
    }
}

/// Every tree in the sequence is bounded.
pub open spec fn bounded_seq(cs: Seq<DocView>) -> bool
    decreases cs, 1int,
{
    if cs.len() == 0 {
        true
    } else {
        bounded_seq(cs.drop_last()) && bounded(cs.last())
    }
}

/// A bounded sequence has a bounded head and a bounded tail.
proof fn lemma_bounded_seq_split(cs: Seq<DocView>)
    requires
        bounded_seq(cs),
        cs.len() > 0,
    ensures
        bounded(cs[0]),
        bounded_seq(cs.drop_first()),
    decreases cs.len(),
{
    if cs.len() == 1 {
        assert(cs[0] == cs.last());
        assert(cs.drop_first() =~= Seq::<DocView>::empty());
    } else {
        lemma_bounded_seq_split(cs.drop_last());
        assert(cs.drop_last()[0] == cs[0]);
        assert(cs.drop_first().drop_last() =~= cs.drop_last().drop_first());
        assert(cs.drop_first().last() == cs.last());
        assert(bounded_seq(cs.drop_first()));
    }
}

/// The decoding of one document tree from the front of a token stream:
/// the tree and the remaining tokens, or nothing when the stream does not
/// begin with a well-formed encoding.
pub open spec fn spec_deser(s: Seq<u64>) -> Option<(DocView, Seq<u64>)>
    decreases s.len(), 0int, 0int,
{
    if s.len() == 0 {
        None
    } else {
        let code = s[0];
        if code == 6 {
            Some((DocView::Br, s.drop_first()))
        } else if is_text_code(code) {
            if s.len() < 2 {
                None
            } else {
                let n = s[1];
                if s.len() - 2 < n {
                    None
                } else {
                    let chars = s.subrange(2, 2 + n);
                    if all_char_codes(chars) {
                        Some(
                            (
                                text_of_code(code, decode_chars(chars)),
                                s.subrange(2 + n, s.len() as int),
                            ),
                        )
                    } else {
                        None
                    }
                }
            }
        } else if is_container_code(code) {
            if s.len() < 2 {
                None
            } else {
                let n = s[1];
                match spec_deser_seq(s.subrange(2, s.len() as int), n) {
                    None => None,
                    Some((ks, rest)) => Some((container_of_code(code, ks), rest)),
                }
            }
        } else {
            None
        }
    }
}

/// The decoding of `n` document trees in sequence from the front of a token
/// stream. A decoded tree always consumes at least one token; a decoding
/// that would consume nothing is rejected.
pub open spec fn spec_deser_seq(s: Seq<u64>, n: u64) -> Option<(Seq<DocView>, Seq<u64>)>
    decreases s.len(), 1int, n,
{
    if n == 0 {
        Some((Seq::empty(), s))
    } else {
        match spec_deser(s) {
            None => None,
            Some((v, rest)) => {
                if rest.len() < s.len() {
                    match spec_deser_seq(rest, (n - 1) as u64) {
                        None => None,
                        Some((ks, rest2)) => Some((seq![v] + ks, rest2)),
                    }
                } else {
                    None
                }
            },
        }
    }
}

/// Every encoding holds at least its tag token.
proof fn lemma_ser_len(v: DocView)
    ensures
        spec_ser(v).len() >= 1,
        spec_ser(v)[0] == code_of(v),
{
}

/// Appending one tree to a sequence appends its encoding to the stream.
proof fn lemma_ser_seq_snoc(cs: Seq<DocView>, v: DocView)
    ensures
        spec_ser_seq(cs.push(v)) == spec_ser_seq(cs) + spec_ser(v),
    decreases cs.len(),
{
    if cs.len() == 0 {
        assert(cs.push(v).drop_first() =~= Seq::<DocView>::empty());
        assert(cs.push(v)[0] == v);
        assert(spec_ser_seq(Seq::<DocView>::empty()) =~= Seq::<u64>::empty());
        assert(spec_ser_seq(cs.push(v)) =~= spec_ser(v));
        assert(spec_ser_seq(cs) + spec_ser(v) =~= spec_ser(v));
    } else {
        lemma_ser_seq_snoc(cs.drop_first(), v);
        assert(cs.push(v).drop_first() =~= cs.drop_first().push(v));
        assert(cs.push(v)[0] == cs[0]);
        assert(spec_ser(cs[0]) + (spec_ser_seq(cs.drop_first()) + spec_ser(v)) =~= (spec_ser(cs[0])
            + spec_ser_seq(cs.drop_first())) + spec_ser(v));
    }
}

/// Round trip, one tree: decoding an encoded bounded tree in front of any
/// remainder yields exactly that tree and that remainder.
pub proof fn lemma_round_trip(v: DocView, rest: Seq<u64>)
    requires
        bounded(v),
    ensures
        spec_deser(spec_ser(v) + rest) == Some((v, rest)),
    decreases v, 0int,
{
    broadcast use vstd::utf8::char_is_scalar, vstd::utf8::char_u32_cast;

    let s = spec_ser(v) + rest;
    match v {
        DocView::Br => {
            assert(s.drop_first() =~= rest);
        },
        DocView::Italics(t) => {
            lemma_round_trip_text(3, t, rest);
        },
        DocView::Bold(t) => {
            lemma_round_trip_text(4, t, rest);
        },
        DocView::Text(t) => {
            lemma_round_trip_text(16, t, rest);
        },
        DocView::Body(cs) => {
            lemma_round_trip_container(0, cs, rest);
        },
        DocView::Paragraph(cs) => {
            lemma_round_trip_container(1, cs, rest);
        },
        DocView::Caption(cs) => {
            lemma_round_trip_container(2, cs, rest);
        },
        DocView::Sup(cs) => {
            lemma_round_trip_container(5, cs, rest);
        },
        DocView::Listing(cs) => {
            lemma_round_trip_container(7, cs, rest);
        },
        DocView::Line(cs) => {
            lemma_round_trip_container(8, cs, rest);
        },
        DocView::Table(cs) => {
            lemma_round_trip_container(9, cs, rest);
        },
        DocView::Tbody(cs) => {
            lemma_round_trip_container(10, cs, rest);
        },
        DocView::Thead(cs) => {
            lemma_round_trip_container(11, cs, rest);
        },
        DocView::Tfoot(cs) => {
            lemma_round_trip_container(12, cs, rest);
        },
        DocView::Row(cs) => {
            lemma_round_trip_container(13, cs, rest);
        },
        DocView::Header(cs) => {
            lemma_round_trip_container(14, cs, rest);
        },
        DocView::Cell(cs) => {
            lemma_round_trip_container(15, cs, rest);
        },
    }
}

/// Round trip for the text leaves.
proof fn lemma_round_trip_text(code: u64, t: Seq<char>, rest: Seq<u64>)
    requires
        is_text_code(code),
        t.len() <= u64::MAX,
    ensures
        spec_deser((seq![code, t.len() as u64] + spec_chars(t)) + rest) == Some(
            (text_of_code(code, t), rest),
        ),
{
    broadcast use vstd::utf8::char_is_scalar, vstd::utf8::char_u32_cast;

    let n = t.len() as u64;
    let a = seq![code, n];
    let s = (a + spec_chars(t)) + rest;
    assert(a.len() == 2 && a[0] == code && a[1] == n);
    assert(spec_chars(t).len() == t.len());
    assert(s.len() == 2 + t.len() + rest.len());
    assert(s[0] == code);
    assert(s[1] == n);
    let chars = s.subrange(2, 2 + n);
    assert(chars =~= spec_chars(t));
    assert forall|i: int| 0 <= i < chars.len() implies is_char_code(#[trigger] chars[i]) by {
        assert(chars[i] == (t[i] as u32) as u64);
        vstd::utf8::char_is_scalar(t[i]);
        assert(vstd::utf8::is_scalar(t[i] as u32));
    }
    assert(decode_chars(chars) =~= t) by {
        assert forall|i: int| 0 <= i < chars.len() implies decode_chars(chars)[i] == t[i] by {
            assert(chars[i] == (t[i] as u32) as u64);
            assert(chars[i] as u32 == t[i] as u32);
            vstd::utf8::char_u32_cast(t[i], t[i] as u32);
            assert(((t[i] as u32) as char) == t[i]);
        }
    }
    assert(s.subrange(2 + n, s.len() as int) =~= rest);
}

/// Round trip for the container variants.
proof fn lemma_round_trip_container(code: u64, cs: Seq<DocView>, rest: Seq<u64>)
    requires
        is_container_code(code),
        cs.len() <= u64::MAX,
        bounded_seq(cs),
    ensures
        spec_deser((seq![code, cs.len() as u64] + spec_ser_seq(cs)) + rest) == Some(
            (container_of_code(code, cs), rest),
        ),
    decreases cs, 3int, 0int,
{
    let a = seq![code, cs.len() as u64];
    let s = (a + spec_ser_seq(cs)) + rest;
    assert(a.len() == 2 && a[0] == code && a[1] == cs.len() as u64);
    assert(s[0] == code);
    assert(s[1] == cs.len() as u64);
    assert(s.subrange(2, s.len() as int) =~= spec_ser_seq(cs) + rest);
    lemma_round_trip_seq(cs, rest);
}

/// Round trip for a sequence of trees: decoding the concatenated encodings
/// with the right count yields the trees and the remainder.
proof fn lemma_round_trip_seq(cs: Seq<DocView>, rest: Seq<u64>)
    requires
        cs.len() <= u64::MAX,
        bounded_seq(cs),
    ensures
        spec_deser_seq(spec_ser_seq(cs) + rest, cs.len() as u64) == Some((cs, rest)),
    decreases cs, 2int, cs.len(),
{
    if cs.len() == 0 {
        assert(spec_ser_seq(cs) + rest =~= rest);
    } else {
        lemma_bounded_seq_split(cs);
        let s = spec_ser_seq(cs) + rest;
        let tail_stream = spec_ser_seq(cs.drop_first()) + rest;
        assert(s =~= spec_ser(cs[0]) + tail_stream);
        lemma_round_trip(cs[0], tail_stream);
        lemma_ser_len(cs[0]);
        lemma_round_trip_seq(cs.drop_first(), rest);
        assert(seq![cs[0]] + cs.drop_first() =~= cs);
    }
}

/// Decoding exactly one whole tree from an encoding leaves no remainder.
pub proof fn lemma_round_trip_exact(v: DocView)
    requires
        bounded(v),
    ensures
        spec_deser(spec_ser(v)) == Some((v, Seq::<u64>::empty())),
{
    lemma_round_trip(v, Seq::<u64>::empty());
    assert(spec_ser(v) + Seq::<u64>::empty() =~= spec_ser(v));
}

impl SpellDescriptionStruct {
    /// Append this tree's encoding to `out`.
    fn write_to(&self, out: &mut Vec<u64>)
        ensures
            final(out)@ == old(out)@ + spec_ser(sds_view(*self)),
            bounded(sds_view(*self)),
        decreases self, 0int,
    {
        match self {
            SpellDescriptionStruct::Body(cs) => write_container(0, cs, out),
            SpellDescriptionStruct::Paragraph(cs) => write_container(1, cs, out),
            SpellDescriptionStruct::Caption(cs) => write_container(2, cs, out),
            SpellDescriptionStruct::Italics(s) => write_text(3, s, out),
            SpellDescriptionStruct::Bold(s) => write_text(4, s, out),
            SpellDescriptionStruct::Sup(cs) => write_container(5, cs, out),
            SpellDescriptionStruct::Br => {
                out.push(6);
                proof {
                    assert(out@ =~= old(out)@ + spec_ser(sds_view(*self)));
                }
            },
            SpellDescriptionStruct::Listing(cs) => write_container(7, cs, out),
            SpellDescriptionStruct::Line(cs) => write_container(8, cs, out),
            SpellDescriptionStruct::Table(cs) => write_container(9, cs, out),
            SpellDescriptionStruct::Tbody(cs) => write_container(10, cs, out),
            SpellDescriptionStruct::Thead(cs) => write_container(11, cs, out),
            SpellDescriptionStruct::Tfoot(cs) => write_container(12, cs, out),
            SpellDescriptionStruct::Row(cs) => write_container(13, cs, out),
            SpellDescriptionStruct::Header(cs) => write_container(14, cs, out),
            SpellDescriptionStruct::Cell(cs) => write_container(15, cs, out),
            SpellDescriptionStruct::Text(s) => write_text(16, s, out),
        }
    }

    /// Encode this tree as a flat token stream.
    pub fn serialize(&self) -> (out: Vec<u64>)
        ensures
            out@ == spec_ser(self@),
            bounded(self@),
    {
        let mut out: Vec<u64> = Vec::new();
        self.write_to(&mut out);
        proof {
            assert(Seq::<u64>::empty() + spec_ser(sds_view(*self)) =~= spec_ser(sds_view(*self)));
        }
        out
    }

    /// Decode a tree from a token stream. Returns the tree exactly when the
    /// whole stream is the encoding of one tree; otherwise nothing.
    pub fn deserialize(data: &Vec<u64>) -> (r: Option<SpellDescriptionStruct>)
        ensures
            ({
                let d = spec_deser(data@);
                match r {
                    Some(w) => d matches Some(p) && sds_view(w) == p.0 && p.1 == Seq::<
                        u64,
                    >::empty(),
                    None => d is None || (d matches Some(p) && p.1.len() > 0),
                }
            }),
    {
        proof {
            assert(data@.subrange(0, data@.len() as int) =~= data@);
        }
        match read_node(data, 0) {
            None => None,
            Some((w, p2)) => {
                if p2 == data.len() {
                    proof {
                        assert(data@.subrange(p2 as int, data@.len() as int) =~= Seq::<
                            u64,
                        >::empty());
                    }
                    Some(w)
                } else {
                    None
                }
            },
        }
    }
}

/// Append one container encoding: the tag token, the child count, and the
/// children's encodings in order.
fn write_container(code: u64, cs: &Vec<SpellDescriptionStruct>, out: &mut Vec<u64>)
    ensures
        final(out)@ == old(out)@ + (seq![code, cs@.len() as u64] + spec_ser_seq(
            seq_doc_view(cs@),
        )),
        seq_doc_view(cs@).len() == cs@.len() <= u64::MAX,
        bounded_seq(seq_doc_view(cs@)),
    decreases cs, 1int,
{
    proof {
        lemma_seq_doc_view(cs@);
        vstd::std_specs::vec::axiom_spec_len(cs);
    }
    out.push(code);
    out.push(cs.len() as u64);
    let ghost base = out@;
    proof {
        assert(seq_doc_view(cs@).subrange(0, 0) =~= Seq::<DocView>::empty());
        assert(base + spec_ser_seq(Seq::<DocView>::empty()) =~= base);
    }
    let mut i: usize = 0;
    while i < cs.len()
        invariant
            i <= cs@.len(),
            seq_doc_view(cs@).len() == cs@.len() <= u64::MAX,
            out@ == base + spec_ser_seq(seq_doc_view(cs@).subrange(0, i as int)),
            bounded_seq(seq_doc_view(cs@).subrange(0, i as int)),
        decreases cs@.len() - i,
    {
        proof {
            assert(decreases_to!(*cs => cs@));
            assert(decreases_to!(cs@ => cs@[i as int]));
        }
        let ghost pre = out@;
        let ghost prefix = seq_doc_view(cs@).subrange(0, i as int);
        cs[i].write_to(out);
        proof {
            lemma_seq_doc_view(cs@);
            let next = sds_view(cs@[i as int]);
            assert(seq_doc_view(cs@)[i as int] == next);
            assert(seq_doc_view(cs@).subrange(0, i + 1) =~= prefix.push(next));
            lemma_ser_seq_snoc(prefix, next);
            assert(out@ =~= base + spec_ser_seq(prefix.push(next)));
            assert(prefix.push(next).drop_last() =~= prefix);
            assert(prefix.push(next).last() == next);
        }
        i += 1;
    }
    proof {
        assert(seq_doc_view(cs@).subrange(0, cs@.len() as int) =~= seq_doc_view(cs@));
        assert(out@ =~= old(out)@ + (seq![code, cs@.len() as u64] + spec_ser_seq(
            seq_doc_view(cs@),
        )));
    }
}

/// Append one text-leaf encoding: the tag token, the character count, and
/// one token per character.
fn write_text(code: u64, s: &String, out: &mut Vec<u64>)
    ensures
        final(out)@ == old(out)@ + (seq![code, s@.len() as u64] + spec_chars(s@)),
        s@.len() <= u64::MAX,
{
    let l = s.as_str().unicode_len();
    out.push(code);
    out.push(l as u64);
    let ghost base = out@;
    proof {
        assert(spec_chars(s@).subrange(0, 0) =~= Seq::<u64>::empty());
        assert(base + Seq::<u64>::empty() =~= base);
    }
    let mut i: usize = 0;
    while i < l
        invariant
            i <= l,
            l == s@.len(),
            out@ == base + spec_chars(s@).subrange(0, i as int),
        decreases l - i,
    {
        let c = s.as_str().get_char(i);
        out.push((c as u32) as u64);
        proof {
            assert(spec_chars(s@)[i as int] == (c as u32) as u64);
            assert(spec_chars(s@).subrange(0, i + 1) =~= spec_chars(s@).subrange(0, i as int).push(
                (c as u32) as u64,
            ));
        }
        i += 1;
    }
    proof {
        assert(spec_chars(s@).subrange(0, s@.len() as int) =~= spec_chars(s@));
        assert(out@ =~= old(out)@ + (seq![code, s@.len() as u64] + spec_chars(s@)));
    }
}

/// Decode one tree from position `pos`, returning it with the position just
/// past its encoding.
fn read_node(data: &Vec<u64>, pos: usize) -> (r: Option<(SpellDescriptionStruct, usize)>)
    requires
        pos <= data@.len(),
    ensures
        ({
            let s = data@.subrange(pos as int, data@.len() as int);
            match spec_deser(s) {
                None => r is None,
                Some((v, rest)) => r matches Some((w, p2)) && sds_view(w) == v && pos < p2
                    <= data@.len() && data@.subrange(p2 as int, data@.len() as int) == rest,
            }
        }),
    decreases data@.len() - pos, 0int,
{
    let ghost s = data@.subrange(pos as int, data@.len() as int);
    let len = data.len();
    if len == pos {
        return None;
    }
    let code = data[pos];
    proof {
        assert(s[0] == code);
    }
    if code == 6 {
        proof {
            assert(s.drop_first() =~= data@.subrange(pos + 1, data@.len() as int));
        }
        return Some((SpellDescriptionStruct::Br, pos + 1));
    }
    if code > 16 {
        return None;
    }
    if len - pos < 2 {
        return None;
    }
    let n = data[pos + 1];
    proof {
        assert(s[1] == n);
    }
    if code == 3 || code == 4 || code == 16 {
        let avail = (len - (pos + 2)) as u64;
        if avail < n {
            return None;
        }
        let n_us = n as usize;
        proof {
            vstd::std_specs::vec::axiom_spec_len(data);
        }
        let ghost chars = s.subrange(2, 2 + n as int);
        let mut st = String::new();
        let mut i: usize = 0;
        while i < n_us
            invariant
                data@.len() <= usize::MAX,
                pos + 2 + n_us <= data@.len(),
                n_us == n,
                i <= n_us,
                s == data@.subrange(pos as int, data@.len() as int),
                s.len() >= 2,
                s[0] == code,
                s[1] == n,
                code == 3 || code == 4 || code == 16,
                n <= s.len() - 2,
                chars == s.subrange(2, 2 + n as int),
                chars.len() == n,
                forall|j: int| 0 <= j < i ==> is_char_code(#[trigger] chars[j]),
                st@ == decode_chars(chars).subrange(0, i as int),
            decreases n_us - i,
        {
            let x = data[pos + 2 + i];
            proof {
                assert(chars[i as int] == x);
            }
            if !(x < 0xD800 || (0xE000 <= x && x <= 0x10FFFF)) {
                proof {
                    assert(!is_char_code(chars[i as int]));
                }
                return None;
            }
            match char::from_u32(x as u32) {
                Some(c) => {
                    push_char(&mut st, c);
                    proof {
                        assert((x as u32) as u64 == x);
                        assert(decode_chars(chars)[i as int] == c);
                        assert(decode_chars(chars).subrange(0, i + 1) =~= decode_chars(
                            chars,
                        ).subrange(0, i as int).push(c));
                    }
                },
                None => {
                    proof {
                        assert((x as u32) as u64 == x);
                        assert(false);
                    }
                },
            }
            i += 1;
        }
        proof {
            assert(all_char_codes(chars));
            assert(decode_chars(chars).subrange(0, n as int) =~= decode_chars(chars));
            assert(data@.subrange(pos + 2 + n as int, data@.len() as int) =~= s.subrange(
                2 + n as int,
                s.len() as int,
            ));
        }
        let w = if code == 3 {
            SpellDescriptionStruct::Italics(st)
        } else if code == 4 {
            SpellDescriptionStruct::Bold(st)
        } else {
            SpellDescriptionStruct::Text(st)
        };
        return Some((w, pos + 2 + n_us));
    }
    // container codes: everything in 0..=15 except 3, 4 and 6
    proof {
        assert(is_container_code(code));
        assert(s.subrange(2, s.len() as int) =~= data@.subrange(pos + 2, data@.len() as int));
    }
    match read_seq(data, pos + 2, n) {
        None => None,
        Some((ks, p2)) => {
            let w = if code == 0 {
                SpellDescriptionStruct::Body(ks)
            } else if code == 1 {
                SpellDescriptionStruct::Paragraph(ks)
            } else if code == 2 {
                SpellDescriptionStruct::Caption(ks)
            } else if code == 5 {
                SpellDescriptionStruct::Sup(ks)
            } else if code == 7 {
                SpellDescriptionStruct::Listing(ks)
            } else if code == 8 {
                SpellDescriptionStruct::Line(ks)
            } else if code == 9 {
                SpellDescriptionStruct::Table(ks)
            } else if code == 10 {
                SpellDescriptionStruct::Tbody(ks)
            } else if code == 11 {
                SpellDescriptionStruct::Thead(ks)
            } else if code == 12 {
                SpellDescriptionStruct::Tfoot(ks)
            } else if code == 13 {
                SpellDescriptionStruct::Row(ks)
            } else if code == 14 {
                SpellDescriptionStruct::Header(ks)
            } else {
                SpellDescriptionStruct::Cell(ks)
            };
            Some((w, p2))
        },
    }
}

/// Decode `n` trees in sequence starting at position `pos`.
fn read_seq(data: &Vec<u64>, pos: usize, n: u64) -> (r: Option<(
    Vec<SpellDescriptionStruct>,
    usize,
)>)
    requires
        pos <= data@.len(),
    ensures
        ({
            let s = data@.subrange(pos as int, data@.len() as int);
            match spec_deser_seq(s, n) {
                None => r is None,
                Some((vs, rest)) => r matches Some((ks, p2)) && seq_doc_view(ks@) == vs && pos <= p2
                    <= data@.len() && data@.subrange(p2 as int, data@.len() as int) == rest,
            }
        }),
    decreases data@.len() - pos, 1int,
{
    let ghost s0 = data@.subrange(pos as int, data@.len() as int);
    let mut acc: Vec<SpellDescriptionStruct> = Vec::new();
    let mut cur: usize = pos;
    let mut count: u64 = 0;
    proof {
        assert(seq_doc_view(acc@) =~= Seq::<DocView>::empty());
        assert(forall|vs: Seq<DocView>| Seq::<DocView>::empty() + vs =~= vs);
    }
    while count < n
        invariant
            pos <= cur <= data@.len(),
            count <= n,
            s0 == data@.subrange(pos as int, data@.len() as int),
            spec_deser_seq(s0, n) == (match spec_deser_seq(
                data@.subrange(cur as int, data@.len() as int),
                (n - count) as u64,
            ) {
                Some((vs, rest)) => Some::<(Seq<DocView>, Seq<u64>)>(
                    (seq_doc_view(acc@) + vs, rest),
                ),
                None => None::<(Seq<DocView>, Seq<u64>)>,
            }),
        decreases n - count,
    {
        let ghost scur = data@.subrange(cur as int, data@.len() as int);
        match read_node(data, cur) {
            None => {
                return None;
            },
            Some((w, p2)) => {
                let ghost old_acc = acc@;
                acc.push(w);
                proof {
                    let v = sds_view(w);
                    let rest = data@.subrange(p2 as int, data@.len() as int);
                    assert(rest.len() < scur.len());
                    assert(acc@.drop_last() =~= old_acc);
                    assert(acc@.last() == w);
                    assert(seq_doc_view(acc@) == seq_doc_view(old_acc).push(v));
                    assert forall|vs: Seq<DocView>|
                        seq_doc_view(old_acc) + (seq![v] + vs) =~= seq_doc_view(acc@) + vs by {}
                }
                cur = p2;
                count = count + 1;
            },
        }
    }
    proof {
        let send = data@.subrange(cur as int, data@.len() as int);
        assert(spec_deser_seq(send, 0) == Some::<(Seq<DocView>, Seq<u64>)>((Seq::empty(), send)));
        assert(seq_doc_view(acc@) + Seq::<DocView>::empty() =~= seq_doc_view(acc@));
    }
    Some((acc, cur))
}

} // verus!
