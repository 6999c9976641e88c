//! The hash by which an unchanged screen is recognised.
use crate::terminal::{ColoredSpan, Content, CursorShape, GridContent, Span};
use crate::theme::Rgb;
use std::collections::hash_map::DefaultHasher;
use std::hash::Hasher;
use vstd::bytes::{lemma_auto_spec_u64_to_from_le_bytes, spec_u64_to_le_bytes, u64_to_le_bytes};
use vstd::prelude::*;
use vstd::std_specs::hash::DefaultHasherAdditionalSpecFns;
use vstd::utf8::{encode_utf8, encode_utf8_decode_utf8};

verus! {

/// A truth value as a byte.
pub open spec fn flag_byte(flag: bool) -> u8 {
    if flag {
        1
    } else {
        0
    }
}

/// What is hashed of an optional color: whether there is one, then the color.
pub open spec fn color_writes(color: Option<Rgb>) -> Seq<Seq<u8>> {
    match color {
        None => seq![spec_u64_to_le_bytes(0)],
        Some((r, g, b)) => seq![spec_u64_to_le_bytes(1), seq![r], seq![g], seq![b]],
    }
}

/// What is hashed of a span: its text, closed off, and its attributes.
pub open spec fn span_writes(span: Span) -> Seq<Seq<u8>> {
    seq![
        encode_utf8(span.text),
        seq![0xffu8],
        seq![span.attrs.fg.0],
        seq![span.attrs.fg.1],
        seq![span.attrs.fg.2],
    ] + color_writes(span.attrs.bg) + seq![
        seq![flag_byte(span.attrs.bold)],
        seq![flag_byte(span.attrs.italic)],
        seq![flag_byte(span.attrs.underline)],
        seq![flag_byte(span.attrs.strikeout)],
    ]
}

/// What is hashed of a sequence of spans.
pub open spec fn spans_writes(spans: Seq<Span>) -> Seq<Seq<u8>>
    decreases spans.len(),
{
    if spans.len() == 0 {
        Seq::empty()
    } else {
        span_writes(spans.first()) + spans_writes(spans.drop_first())
    }
}

/// What is hashed of a screen: its spans and the cell of the cursor.
pub open spec fn content_writes(content: Content) -> Seq<Seq<u8>> {
    spans_writes(content.spans) + seq![
        spec_u64_to_le_bytes(content.cursor_row as u64),
        spec_u64_to_le_bytes(content.cursor_col as u64),
    ]
}

/// The hash of a screen.
pub open spec fn content_digest(content: Content) -> u64 {
    DefaultHasher::spec_finish(content_writes(content))
}

fn write_byte(hasher: &mut DefaultHasher, byte: u8)
    ensures
        final(hasher)@ == old(hasher)@.push(seq![byte]),
{
    let bytes: [u8; 1] = [byte];
    assert(bytes@ =~= seq![byte]);
    hasher.write(bytes.as_slice());
}

fn write_flag(hasher: &mut DefaultHasher, flag: bool)
    ensures
        final(hasher)@ == old(hasher)@.push(seq![flag_byte(flag)]),
{
    write_byte(
        hasher,
        if flag {
            1
        } else {
            0
        },
    );
}

fn write_number(hasher: &mut DefaultHasher, number: u64)
    ensures
        final(hasher)@ == old(hasher)@.push(spec_u64_to_le_bytes(number)),
{
    let bytes = u64_to_le_bytes(number);
    hasher.write(bytes.as_slice());
}

fn write_span(hasher: &mut DefaultHasher, span: &ColoredSpan)
    ensures
        final(hasher)@ == old(hasher)@ + span_writes(span@),
{
    hasher.write(span.text.as_str().as_bytes());
    write_byte(hasher, 0xff);
    write_byte(hasher, span.r);
    write_byte(hasher, span.g);
    write_byte(hasher, span.b);
    match span.bg {
        None => {
            write_number(hasher, 0);
        },
        Some((r, g, b)) => {
            write_number(hasher, 1);
            write_byte(hasher, r);
            write_byte(hasher, g);
            write_byte(hasher, b);
        },
    }
    write_flag(hasher, span.bold);
    write_flag(hasher, span.italic);
    write_flag(hasher, span.underline);
    write_flag(hasher, span.strikeout);
    assert(hasher@ =~= old(hasher)@ + span_writes(span@));
}

/// Hashes a screen, so that one that is drawn as before can be told.
pub fn content_hash(content: &GridContent) -> (hash: u64)
    ensures
        hash == content_digest(content@),
{
    let mut hasher = DefaultHasher::new();
    let ghost spans = content@.spans;
    let mut i: usize = 0;
    assert(spans.skip(0) =~= spans);
    assert(hasher@ + spans_writes(spans) =~= spans_writes(spans));
    while i < content.spans.len()
        invariant
            i <= content.spans@.len(),
            spans == content@.spans,
            hasher@ + spans_writes(spans.skip(i as int)) == spans_writes(spans),
        decreases content.spans@.len() - i,
    {
        let ghost before = hasher@;
        let ghost rest = spans.skip(i as int);
        write_span(&mut hasher, &content.spans[i]);
        assert(rest.first() == content.spans@[i as int]@);
        assert(rest.drop_first() =~= spans.skip(i + 1));
        assert(hasher@ + spans_writes(spans.skip(i + 1)) =~= before + spans_writes(rest));
        i += 1;
    }
    assert(spans.skip(i as int) =~= Seq::empty());
    assert(hasher@ =~= spans_writes(spans));
    write_number(&mut hasher, content.cursor_row as u64);
    write_number(&mut hasher, content.cursor_col as u64);
    assert(hasher@ =~= content_writes(content@));
    hasher.finish()
}

/// The part of a screen that its hash goes by: all but the widths of the spans
/// and the shape of the cursor.
pub open spec fn hashed_alike(a: Content, b: Content) -> bool {
    &&& a.cursor_row == b.cursor_row
    &&& a.cursor_col == b.cursor_col
    &&& a.spans.len() == b.spans.len()
    &&& forall|i: int|
        0 <= i < a.spans.len() ==> (#[trigger] a.spans[i]).text == b.spans[i].text
            && a.spans[i].attrs == b.spans[i].attrs
}

/// Screens with the same spans and cursor cell have the same hash, so an idle
/// terminal keeps its hash.
pub proof fn same_content_same_digest(a: Content, b: Content)
    requires
        hashed_alike(a, b),
    ensures
        content_digest(a) == content_digest(b),
{
    lemma_same_spans_writes(a.spans, b.spans);
}

proof fn lemma_same_spans_writes(a: Seq<Span>, b: Seq<Span>)
    requires
        a.len() == b.len(),
        forall|i: int|
            0 <= i < a.len() ==> (#[trigger] a[i]).text == b[i].text && a[i].attrs == b[i].attrs,
    ensures
        spans_writes(a) == spans_writes(b),
    decreases a.len(),
{
    if a.len() > 0 {
        assert(a[0].text == b[0].text);
        assert forall|i: int| 0 <= i < a.len() - 1 implies (#[trigger] a.drop_first()[i]).text
            == b.drop_first()[i].text && a.drop_first()[i].attrs == b.drop_first()[i].attrs by {
            assert(a.drop_first()[i] == a[i + 1]);
            assert(b.drop_first()[i] == b[i + 1]);
        }
        lemma_same_spans_writes(a.drop_first(), b.drop_first());
    }
}

/// Nothing that is hashed runs into its neighbour: where the same bytes go into
/// the hash, the spans and the cursor cell are the same.
pub proof fn different_content_different_writes(a: Content, b: Content)
    requires
        content_writes(a) == content_writes(b),
    ensures
        hashed_alike(a, b),
{
    lemma_auto_spec_u64_to_from_le_bytes();
    let n = content_writes(a).len() as int;
    assert(content_writes(a)[n - 1] == spec_u64_to_le_bytes(a.cursor_col as u64));
    assert(content_writes(b)[n - 1] == spec_u64_to_le_bytes(b.cursor_col as u64));
    assert(content_writes(a)[n - 2] == spec_u64_to_le_bytes(a.cursor_row as u64));
    assert(content_writes(b)[n - 2] == spec_u64_to_le_bytes(b.cursor_row as u64));
    assert(spans_writes(a.spans) =~= content_writes(a).take(n - 2));
    assert(spans_writes(b.spans) =~= content_writes(b).take(n - 2));
    lemma_spans_from_writes(a.spans, b.spans);
}

proof fn lemma_spans_from_writes(a: Seq<Span>, b: Seq<Span>)
    requires
        spans_writes(a) == spans_writes(b),
    ensures
        a.len() == b.len(),
        forall|i: int|
            0 <= i < a.len() ==> (#[trigger] a[i]).text == b[i].text && a[i].attrs == b[i].attrs,
    decreases a.len(),
{
    if a.len() == 0 {
        if b.len() > 0 {
            assert(spans_writes(b).len() >= 10);
        }
    } else if b.len() == 0 {
        assert(spans_writes(a).len() >= 10);
    } else {
        let wa = span_writes(a.first());
        let wb = span_writes(b.first());
        let w = spans_writes(a);
        assert(w.take(wa.len() as int) =~= wa);
        assert(w.take(wb.len() as int) =~= wb);
        lemma_span_from_writes(a.first(), b.first(), w);
        assert(spans_writes(a.drop_first()) =~= w.skip(wa.len() as int));
        assert(spans_writes(b.drop_first()) =~= w.skip(wb.len() as int));
        lemma_spans_from_writes(a.drop_first(), b.drop_first());
        assert forall|i: int| 0 <= i < a.len() implies (#[trigger] a[i]).text == b[i].text
            && a[i].attrs == b[i].attrs by {
            if i > 0 {
                assert(a.drop_first()[i - 1] == a[i]);
                assert(b.drop_first()[i - 1] == b[i]);
            }
        }
    }
}

proof fn lemma_span_from_writes(a: Span, b: Span, w: Seq<Seq<u8>>)
    requires
        w.len() >= span_writes(a).len(),
        w.len() >= span_writes(b).len(),
        w.take(span_writes(a).len() as int) == span_writes(a),
        w.take(span_writes(b).len() as int) == span_writes(b),
    ensures
        a.text == b.text,
        a.attrs == b.attrs,
        span_writes(a).len() == span_writes(b).len(),
{
    lemma_auto_spec_u64_to_from_le_bytes();
    let wa = span_writes(a);
    let wb = span_writes(b);
    assert forall|k: int| 0 <= k < wa.len() && k < wb.len() implies #[trigger] wa[k] == wb[k] by {
        assert(wa[k] == w[k]);
        assert(wb[k] == w[k]);
    }
    encode_utf8_decode_utf8(a.text);
    encode_utf8_decode_utf8(b.text);
    assert(wa[0] == wb[0]);
    assert(wa[2][0] == wb[2][0] && wa[3][0] == wb[3][0] && wa[4][0] == wb[4][0]);
    assert(wa[5] == wb[5]);
    assert(a.attrs.bg is Some <==> b.attrs.bg is Some);
    if a.attrs.bg is Some {
        assert(wa[6][0] == wb[6][0] && wa[7][0] == wb[7][0] && wa[8][0] == wb[8][0]);
        assert(wa[9][0] == wb[9][0] && wa[10][0] == wb[10][0]);
        assert(wa[11][0] == wb[11][0] && wa[12][0] == wb[12][0]);
    } else {
        assert(wa[6][0] == wb[6][0] && wa[7][0] == wb[7][0]);
        assert(wa[8][0] == wb[8][0] && wa[9][0] == wb[9][0]);
    }
}

/// The hash is the hasher's answer to what is written for a screen, and nothing is
/// left out of that: where the writes are the same, so are the cursor's cell and
/// the text, the colors and every style of each span.
pub proof fn every_change_reaches_the_hasher(a: Content, b: Content, i: int)
    requires
        content_writes(a) == content_writes(b),
    ensures
        content_digest(a) == DefaultHasher::spec_finish(content_writes(a)),
        a.cursor_row == b.cursor_row,
        a.cursor_col == b.cursor_col,
        a.spans.len() == b.spans.len(),
        0 <= i < a.spans.len() ==> {
            &&& a.spans[i].text == b.spans[i].text
            &&& a.spans[i].attrs.fg == b.spans[i].attrs.fg
            &&& a.spans[i].attrs.bg == b.spans[i].attrs.bg
            &&& a.spans[i].attrs.bold == b.spans[i].attrs.bold
            &&& a.spans[i].attrs.italic == b.spans[i].attrs.italic
            &&& a.spans[i].attrs.underline == b.spans[i].attrs.underline
            &&& a.spans[i].attrs.strikeout == b.spans[i].attrs.strikeout
        },
{
    different_content_different_writes(a, b);
}

/// An idle terminal keeps its hash: neither the widths of the spans, nor where their
/// characters stand, nor the shape of the cursor makes a difference.
pub proof fn unchanged_text_keeps_the_hash(a: Content, b: Content)
    requires
        a.cursor_row == b.cursor_row,
        a.cursor_col == b.cursor_col,
        a.spans.len() == b.spans.len(),
        forall|i: int|
            0 <= i < a.spans.len() ==> {
                &&& (#[trigger] a.spans[i]).text == b.spans[i].text
                &&& a.spans[i].attrs.fg == b.spans[i].attrs.fg
                &&& a.spans[i].attrs.bg == b.spans[i].attrs.bg
                &&& a.spans[i].attrs.bold == b.spans[i].attrs.bold
                &&& a.spans[i].attrs.italic == b.spans[i].attrs.italic
                &&& a.spans[i].attrs.underline == b.spans[i].attrs.underline
                &&& a.spans[i].attrs.strikeout == b.spans[i].attrs.strikeout
            },
    ensures
        content_digest(a) == content_digest(b),
{
    assert forall|i: int| 0 <= i < a.spans.len() implies (#[trigger] a.spans[i]).text
        == b.spans[i].text && a.spans[i].attrs == b.spans[i].attrs by {}
    same_content_same_digest(a, b);
}

/// Each span adds its own writes, whatever the others are: the bytes of its text and
/// what closes them off, its color, its background and its four styles. The cursor's
/// row and column come last.
pub proof fn spans_are_hashed_one_by_one(span: Span, rest: Seq<Span>, row: usize, col: usize)
    ensures
        ({
            let shape = CursorShape::Block;
            let with = Content {
                spans: seq![span] + rest,
                cursor_row: row,
                cursor_col: col,
                cursor_shape: shape,
            };
            let without = Content { spans: rest, ..with };
            let none = Content { spans: Seq::empty(), ..with };
            let flag = |on: bool| if on { seq![1u8] } else { seq![0u8] };
            let (r, g, b) = span.attrs.fg;
            let back = match span.attrs.bg {
                None => seq![spec_u64_to_le_bytes(0)],
                Some((br, bg, bb)) => seq![
                    spec_u64_to_le_bytes(1),
                    seq![br],
                    seq![bg],
                    seq![bb],
                ],
            };
            &&& content_writes(with) == seq![
                encode_utf8(span.text),
                seq![0xffu8],
                seq![r],
                seq![g],
                seq![b],
            ] + back + seq![
                flag(span.attrs.bold),
                flag(span.attrs.italic),
                flag(span.attrs.underline),
                flag(span.attrs.strikeout),
            ] + content_writes(without)
            &&& content_writes(none) == seq![
                spec_u64_to_le_bytes(row as u64),
                spec_u64_to_le_bytes(col as u64),
            ]
        }),
{
    let all = seq![span] + rest;
    assert(all.first() == span);
    assert(all.drop_first() =~= rest);
    let shape = CursorShape::Block;
    let with = Content { spans: all, cursor_row: row, cursor_col: col, cursor_shape: shape };
    let without = Content { spans: rest, ..with };
    let none = Content { spans: Seq::empty(), ..with };
    assert(content_writes(with) =~= span_writes(span) + content_writes(without));
    assert(content_writes(none) =~= seq![
        spec_u64_to_le_bytes(row as u64),
        spec_u64_to_le_bytes(col as u64),
    ]);
}

} // verus!
