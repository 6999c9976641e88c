//! Solid rectangles, in batches of one color each.
use crate::theme::Rgb;
use vstd::multiset::Multiset;
use vstd::prelude::*;

verus! {

/// A rectangle in pixels, with the opaque color that fills it.
#[derive(Clone, Copy)]
pub struct CursorRect {
    pub x: u32,
    pub y: u32,
    pub width: u32,
    pub height: u32,
    pub color: Rgb,
}

/// Rectangles that one render pass fills with one color.
pub struct RectBatch {
    pub color: Rgb,
    pub rects: Vec<CursorRect>,
}

/// The order of colors: by red, then green, then blue.
pub open spec fn color_lt(a: Rgb, b: Rgb) -> bool {
    ||| a.0 < b.0
    ||| a.0 == b.0 && a.1 < b.1
    ||| a.0 == b.0 && a.1 == b.1 && a.2 < b.2
}

/// Whether a rectangle covers any pixel.
pub open spec fn has_area(rect: CursorRect) -> bool {
    rect.width > 0 && rect.height > 0
}

/// Whether rectangles are in the order of their colors.
pub open spec fn sorted_by_color(rects: Seq<CursorRect>) -> bool {
    forall|i: int, j: int|
        0 <= i < j < rects.len() ==> !color_lt((#[trigger] rects[j]).color, (#[trigger] rects[i]).color)
}

/// Those of the rectangles that cover any pixel, in the same order.
pub open spec fn with_area(rects: Seq<CursorRect>) -> Seq<CursorRect> {
    rects.filter(|rect: CursorRect| has_area(rect))
}

/// The rectangles of the first `n` batches, one after the other.
pub open spec fn batched(batches: Seq<RectBatch>, n: int) -> Seq<CursorRect>
    decreases n,
{
    if n <= 0 {
        Seq::empty()
    } else {
        batched(batches, n - 1) + batches[n - 1].rects@
    }
}

/// Whether a batch has a rectangle, and only ones of its own color.
pub open spec fn is_uniform(batch: RectBatch) -> bool {
    &&& batch.rects@.len() > 0
    &&& forall|k: int| 0 <= k < batch.rects@.len() ==> (#[trigger] batch.rects@[k]).color == batch.color
}

/// Whether `batches` draw `rects`: each in its place, and with one batch for
/// each color.
pub open spec fn draws(batches: Seq<RectBatch>, rects: Seq<CursorRect>) -> bool {
    &&& batched(batches, batches.len() as int) == rects
    &&& forall|i: int| 0 <= i < batches.len() ==> is_uniform(#[trigger] batches[i])
    &&& forall|i: int, j: int|
        0 <= i < j < batches.len() ==> color_lt(
            (#[trigger] batches[i]).color,
            (#[trigger] batches[j]).color,
        )
}

/// Whether `batches` draw those of `rects` that cover any pixel, each as often
/// as it is there, with one batch for each color.
pub open spec fn draws_all(batches: Seq<RectBatch>, rects: Seq<CursorRect>) -> bool {
    let drawn = batched(batches, batches.len() as int);
    &&& drawn.to_multiset() == with_area(rects).to_multiset()
    &&& draws(batches, drawn)
}

/// `sort_unstable_by_key` of slices, by the color: the same rectangles, in the
/// order of their colors. The order of rectangles of one color is not stated.
#[verifier::external_body]
fn sort_by_color(rects: &mut Vec<CursorRect>)
    ensures
        final(rects)@.to_multiset() == old(rects)@.to_multiset(),
        sorted_by_color(final(rects)@),
{
    rects.sort_unstable_by_key(|rect| rect.color)
}

fn same_color(a: Rgb, b: Rgb) -> (same: bool)
    ensures
        same == (a == b),
{
    a.0 == b.0 && a.1 == b.1 && a.2 == b.2
}

fn any_with_area(rects: &Vec<CursorRect>) -> (any: bool)
    ensures
        any == exists|i: int| 0 <= i < rects@.len() && has_area(#[trigger] rects@[i]),
{
    let mut i: usize = 0;
    while i < rects.len()
        invariant
            i <= rects@.len(),
            forall|j: int| 0 <= j < i ==> !has_area(#[trigger] rects@[j]),
        decreases rects@.len() - i,
    {
        if rects[i].width > 0 && rects[i].height > 0 {
            assert(has_area(rects@[i as int]));
            return true;
        }
        i += 1;
    }
    false
}

/// Sorts rectangles by color and batches those that cover any pixel, one batch
/// for each color.
///
/// Where no rectangle covers any pixel there is nothing to draw, and the
/// rectangles stay in their order.
pub fn batch_by_color(rects: &mut Vec<CursorRect>) -> (batches: Vec<RectBatch>)
    ensures
        final(rects)@.to_multiset() == old(rects)@.to_multiset(),
        (exists|i: int| 0 <= i < old(rects)@.len() && has_area(#[trigger] old(rects)@[i]))
            ==> sorted_by_color(final(rects)@),
        (forall|i: int| 0 <= i < old(rects)@.len() ==> !has_area(#[trigger] old(rects)@[i]))
            ==> final(rects)@ == old(rects)@ && batches@.len() == 0,
        draws(batches@, with_area(final(rects)@)),
        draws_all(batches@, old(rects)@),
{
    let mut batches: Vec<RectBatch> = Vec::new();
    if !any_with_area(rects) {
        proof {
            lemma_none_with_area(rects@);
        }
        return batches;
    }
    sort_by_color(rects);
    let mut i: usize = 0;
    assert(rects@.take(0) =~= Seq::empty());
    reveal(Seq::filter);
    while i < rects.len()
        invariant
            i <= rects@.len(),
            sorted_by_color(rects@),
            draws(batches@, with_area(rects@.take(i as int))),
            forall|b: int, j: int|
                0 <= b < batches@.len() && i <= j < rects@.len() ==> !color_lt(
                    (#[trigger] rects@[j]).color,
                    (#[trigger] batches@[b]).color,
                ),
        decreases rects@.len() - i,
    {
        let rect = rects[i];
        let ghost earlier = batches@;
        let ghost n = batches@.len() as int;
        assert(rects@.take(i + 1).drop_last() =~= rects@.take(i as int));
        assert(rects@.take(i + 1).last() == rect);
        reveal(Seq::filter);
        if rect.width > 0 && rect.height > 0 {
            let count = batches.len();
            if count > 0 && same_color(batches[count - 1].color, rect.color) {
                batches[count - 1].rects.push(rect);
                proof {
                    lemma_batched_same(earlier, batches@, n - 1);
                    assert(batched(batches@, n) =~= batched(earlier, n).push(rect));
                    assert forall|b: int| 0 <= b < n implies is_uniform(#[trigger] batches@[b]) by {
                        assert(is_uniform(earlier[b]));
                    }
                }
            } else {
                let mut first: Vec<CursorRect> = Vec::new();
                first.push(rect);
                batches.push(RectBatch { color: rect.color, rects: first });
                proof {
                    lemma_batched_same(earlier, batches@, n);
                    assert(batched(batches@, n + 1) =~= batched(earlier, n).push(rect));
                    assert forall|b: int| 0 <= b < n + 1 implies is_uniform(
                        #[trigger] batches@[b],
                    ) by {
                        if b < n {
                            assert(is_uniform(earlier[b]));
                        }
                    }
                    assert forall|b: int| 0 <= b < n implies color_lt(
                        #[trigger] batches@[b].color,
                        rect.color,
                    ) by {
                        assert(!color_lt(rects@[i as int].color, earlier[b].color));
                        if b < n - 1 {
                            assert(color_lt(earlier[b].color, earlier[n - 1].color));
                            assert(!color_lt(rects@[i as int].color, earlier[n - 1].color));
                        }
                    }
                }
            }
        }
        i += 1;
    }
    assert(rects@.take(i as int) =~= rects@);
    proof {
        lemma_with_area_multiset(old(rects)@);
        lemma_with_area_multiset(rects@);
    }
    batches
}

proof fn lemma_batched_same(a: Seq<RectBatch>, b: Seq<RectBatch>, n: int)
    requires
        n <= a.len(),
        n <= b.len(),
        forall|i: int| 0 <= i < n ==> a[i] == b[i],
    ensures
        batched(a, n) == batched(b, n),
    decreases n,
{
    if n > 0 {
        lemma_batched_same(a, b, n - 1);
    }
}

proof fn lemma_none_with_area(rects: Seq<CursorRect>)
    requires
        forall|i: int| 0 <= i < rects.len() ==> !has_area(#[trigger] rects[i]),
    ensures
        with_area(rects) == Seq::<CursorRect>::empty(),
    decreases rects.len(),
{
    reveal(Seq::filter);
    if rects.len() > 0 {
        assert forall|i: int| 0 <= i < rects.drop_last().len() implies !has_area(
            #[trigger] rects.drop_last()[i],
        ) by {
            assert(rects.drop_last()[i] == rects[i]);
        }
        lemma_none_with_area(rects.drop_last());
    }
}

proof fn lemma_with_area_multiset(rects: Seq<CursorRect>)
    ensures
        with_area(rects).to_multiset() == rects.to_multiset().filter(
            |rect: CursorRect| has_area(rect),
        ),
    decreases rects.len(),
{
    broadcast use vstd::seq_lib::group_to_multiset_ensures;

    reveal(Seq::filter);
    let keep = |rect: CursorRect| has_area(rect);
    if rects.len() == 0 {
        assert(rects.to_multiset() =~= Multiset::<CursorRect>::empty());
        assert(with_area(rects).to_multiset() =~= rects.to_multiset().filter(keep));
    } else {
        let rest = rects.drop_last();
        lemma_with_area_multiset(rest);
        assert(rects =~= rest.push(rects.last()));
        assert(rects.to_multiset() =~= rest.to_multiset().insert(rects.last()));
        assert(with_area(rects).to_multiset() =~= rects.to_multiset().filter(keep));
    }
}

/// A color is drawn in one batch: no two batches share one.
pub proof fn one_batch_per_color(
    batches: Seq<RectBatch>,
    rects: Seq<CursorRect>,
    i: int,
    j: int,
)
    requires
        draws(batches, rects),
        0 <= i < batches.len(),
        0 <= j < batches.len(),
        batches[i].color == batches[j].color,
    ensures
        i == j,
{
}

/// A rectangle that is drawn is in the batch of its own color, and there is one
/// for it.
pub proof fn drawn_in_own_batch(batches: Seq<RectBatch>, rects: Seq<CursorRect>, k: int)
    requires
        draws(batches, rects),
        0 <= k < rects.len(),
    ensures
        exists|i: int|
            0 <= i < batches.len() && (#[trigger] batches[i]).color == rects[k].color
                && batches[i].rects@.contains(rects[k]),
{
    lemma_batched_contains(batches, batches.len() as int, rects[k]);
    let i = choose|i: int|
        0 <= i < batches.len() && (#[trigger] batches[i]).rects@.contains(rects[k]);
    assert(is_uniform(batches[i]));
}

proof fn lemma_batched_contains(batches: Seq<RectBatch>, n: int, rect: CursorRect)
    requires
        n <= batches.len(),
        batched(batches, n).contains(rect),
    ensures
        exists|i: int| 0 <= i < n && (#[trigger] batches[i]).rects@.contains(rect),
    decreases n,
{
    if n > 0 && !batches[n - 1].rects@.contains(rect) {
        let at = choose|at: int| 0 <= at < batched(batches, n).len() && batched(batches, n)[at] == rect;
        let front = batched(batches, n - 1);
        if at >= front.len() {
            assert(batches[n - 1].rects@[at - front.len()] == rect);
        }
        assert(front[at] == rect);
        lemma_batched_contains(batches, n - 1, rect);
    }
}

/// A rectangle that covers any pixel is drawn, in a batch of its own color, whatever
/// else there is.
pub proof fn rect_with_area_is_drawn(batches: Seq<RectBatch>, rects: Seq<CursorRect>, k: int)
    requires
        draws_all(batches, rects),
        0 <= k < rects.len(),
        rects[k].width > 0,
        rects[k].height > 0,
    ensures
        exists|i: int, m: int|
            #![trigger batches[i].rects@[m]]
            0 <= i < batches.len() && 0 <= m < batches[i].rects@.len() && batches[i].rects@[m]
                == rects[k] && batches[i].color == rects[k].color,
{
    let rect = rects[k];
    let n = batches.len() as int;
    let drawn = batched(batches, n);
    rects.to_multiset_ensures();
    drawn.to_multiset_ensures();
    lemma_with_area_multiset(rects);
    assert(rects.contains(rect));
    assert(rects.to_multiset().count(rect) > 0);
    assert(drawn.to_multiset().count(rect) > 0);
    assert(drawn.contains(rect));
    lemma_batched_contains(batches, n, rect);
    let i = choose|i: int| 0 <= i < n && (#[trigger] batches[i]).rects@.contains(rect);
    let m = choose|m: int|
        0 <= m < batches[i].rects@.len() && #[trigger] batches[i].rects@[m] == rect;
    assert(is_uniform(batches[i]));
    assert(batches[i].rects@[m] == rect);
}

/// Only the rectangles that are asked for are drawn, each in its own color, and only
/// where they cover any pixel.
pub proof fn nothing_else_is_drawn(
    batches: Seq<RectBatch>,
    rects: Seq<CursorRect>,
    i: int,
    m: int,
)
    requires
        draws_all(batches, rects),
        0 <= i < batches.len(),
        0 <= m < batches[i].rects@.len(),
    ensures
        rects.contains(batches[i].rects@[m]),
        batches[i].rects@[m].color == batches[i].color,
        batches[i].rects@[m].width > 0,
        batches[i].rects@[m].height > 0,
{
    let rect = batches[i].rects@[m];
    let n = batches.len() as int;
    let drawn = batched(batches, n);
    rects.to_multiset_ensures();
    drawn.to_multiset_ensures();
    lemma_with_area_multiset(rects);
    lemma_in_batched(batches, n, i, m);
    assert(drawn.contains(rect));
    assert(drawn.to_multiset().count(rect) > 0);
    assert(rects.to_multiset().count(rect) > 0);
    assert(is_uniform(batches[i]));
}

proof fn lemma_in_batched(batches: Seq<RectBatch>, n: int, i: int, m: int)
    requires
        0 <= i < n <= batches.len(),
        0 <= m < batches[i].rects@.len(),
    ensures
        batched(batches, n).contains(batches[i].rects@[m]),
    decreases n,
{
    let rect = batches[i].rects@[m];
    let front = batched(batches, n - 1);
    if i < n - 1 {
        lemma_in_batched(batches, n - 1, i, m);
        let at = choose|at: int| 0 <= at < front.len() && front[at] == rect;
        assert(batched(batches, n)[at] == rect);
    } else {
        assert(batched(batches, n)[front.len() + m] == rect);
    }
}

/// A rectangle is drawn as often as it is asked for, and one without pixels not at
/// all.
pub proof fn rects_are_drawn_as_often_as_asked(
    batches: Seq<RectBatch>,
    rects: Seq<CursorRect>,
    rect: CursorRect,
)
    requires
        draws_all(batches, rects),
    ensures
        rect.width > 0 && rect.height > 0 ==> batched(
            batches,
            batches.len() as int,
        ).to_multiset().count(rect) == rects.to_multiset().count(rect),
        rect.width == 0 || rect.height == 0 ==> batched(
            batches,
            batches.len() as int,
        ).to_multiset().count(rect) == 0,
{
    lemma_with_area_multiset(rects);
}

/// Batches come in the order of their colors: by red first, then by green, then by
/// blue.
pub proof fn batches_are_ordered_by_color(
    batches: Seq<RectBatch>,
    rects: Seq<CursorRect>,
    i: int,
    j: int,
)
    requires
        draws(batches, rects),
        0 <= i < j < batches.len(),
    ensures
        ({
            let (r, g, b) = batches[i].color;
            let (s, h, c) = batches[j].color;
            65536 * r + 256 * g + b < 65536 * s + 256 * h + c
        }),
        batches[i].rects@.len() > 0,
        batches[j].rects@.len() > 0,
{
    assert(color_lt(batches[i].color, batches[j].color));
    assert(is_uniform(batches[i]) && is_uniform(batches[j]));
}

/// Rectangles that were sorted are in the order of their colors as numbers.
pub proof fn sorted_rects_rise(rects: Seq<CursorRect>, i: int, j: int)
    requires
        sorted_by_color(rects),
        0 <= i < j < rects.len(),
    ensures
        ({
            let (r, g, b) = rects[i].color;
            let (s, h, c) = rects[j].color;
            65536 * r + 256 * g + b <= 65536 * s + 256 * h + c
        }),
{
    assert(!color_lt(rects[j].color, rects[i].color));
}

} // verus!
