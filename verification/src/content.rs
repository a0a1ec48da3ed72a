//! The text of a file's block that belongs to the file itself: the block
//! without the blocks of the files that it includes.

use vstd::prelude::*;

verus! {

/// A span of the transcript: the positions from `.0` up to, not including,
/// `.1`.
pub type Span = (usize, usize);

/// Whether `position` lies in `span`.
pub open spec fn span_has(span: Span, position: int) -> bool {
    span.0 <= position < span.1
}

/// Whether `position` lies in one of `parts`.
pub open spec fn parts_have(parts: Seq<Span>, position: int) -> bool {
    exists|i: int| 0 <= i < parts.len() && span_has(#[trigger] parts[i], position)
}

/// Whether a block recorded earlier counts as nested in the block from
/// `start` to `end`: it starts strictly inside it.
pub open spec fn nested_in(inner: Span, start: usize, end: usize) -> bool {
    start < inner.0 < end
}

/// Whether `position` lies in one of the recorded blocks that are nested in
/// the block from `start` to `end`.
pub open spec fn claimed(recorded: Seq<Span>, start: usize, end: usize, position: int) -> bool {
    exists|j: int|
        0 <= j < recorded.len() && nested_in(#[trigger] recorded[j], start, end) && span_has(
            recorded[j],
            position,
        )
}

/// What is left of `part` when `hole` is taken out: nothing, the piece before
/// the hole, the piece after it, or both.
pub open spec fn cut_span(part: Span, hole: Span) -> Seq<Span> {
    if hole.0 >= hole.1 || hole.1 <= part.0 || part.1 <= hole.0 {
        seq![part]
    } else {
        let before = if part.0 < hole.0 {
            seq![(part.0, hole.0)]
        } else {
            Seq::<Span>::empty()
        };
        let after = if hole.1 < part.1 {
            seq![(hole.1, part.1)]
        } else {
            Seq::<Span>::empty()
        };
        before + after
    }
}

/// What is left of each of `parts` when `hole` is taken out.
pub open spec fn cut(parts: Seq<Span>, hole: Span) -> Seq<Span>
    decreases parts.len(),
{
    if parts.len() == 0 {
        Seq::<Span>::empty()
    } else {
        cut(parts.drop_last(), hole) + cut_span(parts.last(), hole)
    }
}

/// The spans of the block from `start` to `end` that belong to its file
/// alone: the block, with every recorded block that is nested in it taken
/// out.
pub open spec fn content_spans(recorded: Seq<Span>, start: usize, end: usize) -> Seq<Span>
    decreases recorded.len(),
{
    if recorded.len() == 0 {
        if start < end {
            seq![(start, end)]
        } else {
            Seq::<Span>::empty()
        }
    } else {
        let spans = content_spans(recorded.drop_last(), start, end);
        if nested_in(recorded.last(), start, end) {
            cut(spans, recorded.last())
        } else {
            spans
        }
    }
}

/// Whether every part is non-empty and lies between `start` and `end`.
pub open spec fn parts_within(parts: Seq<Span>, start: usize, end: usize) -> bool {
    forall|i: int|
        0 <= i < parts.len() ==> start <= (#[trigger] parts[i]).0 < parts[i].1 <= end
}

/// Cutting removes exactly the positions of the hole, and leaves non-empty
/// parts inside the old bounds.
pub proof fn lemma_cut(parts: Seq<Span>, hole: Span, start: usize, end: usize)
    requires
        parts_within(parts, start, end),
    ensures
        parts_within(cut(parts, hole), start, end),
        forall|p: int|
            #![trigger parts_have(cut(parts, hole), p)]
            #![trigger parts_have(parts, p)]
            parts_have(cut(parts, hole), p) <==> (parts_have(parts, p) && !span_has(hole, p)),
    decreases parts.len(),
{
    let result = cut(parts, hole);
    if parts.len() == 0 {
        assert forall|p: int|
            parts_have(result, p) <==> (parts_have(parts, p) && !span_has(hole, p)) by {}
    } else {
        let front = parts.drop_last();
        let last = parts.last();
        let head = cut(front, hole);
        let tail = cut_span(last, hole);
        assert(parts_within(front, start, end)) by {
            assert forall|i: int| 0 <= i < front.len() implies start <= (#[trigger] front[i]).0
                < front[i].1 <= end by {
                assert(front[i] == parts[i]);
            }
        }
        lemma_cut(front, hole, start, end);
        assert(start <= last.0 < last.1 <= end);
        assert forall|i: int| 0 <= i < result.len() implies start <= (#[trigger] result[i]).0
            < result[i].1 <= end by {
            if i < head.len() {
                assert(result[i] == head[i]);
            } else {
                assert(result[i] == tail[i - head.len()]);
            }
        }
        assert forall|p: int|
            parts_have(result, p) <==> (parts_have(parts, p) && !span_has(hole, p)) by {
            if parts_have(result, p) {
                let i = choose|i: int| 0 <= i < result.len() && span_has(#[trigger] result[i], p);
                if i < head.len() {
                    assert(result[i] == head[i]);
                    assert(parts_have(head, p));
                    let k = choose|k: int| 0 <= k < front.len() && span_has(#[trigger] front[k], p);
                    assert(parts[k] == front[k]);
                } else {
                    assert(result[i] == tail[i - head.len()]);
                    assert(span_has(parts[parts.len() - 1], p));
                }
            }
            if parts_have(parts, p) && !span_has(hole, p) {
                let k = choose|k: int| 0 <= k < parts.len() && span_has(#[trigger] parts[k], p);
                if k < front.len() {
                    assert(front[k] == parts[k]);
                    assert(parts_have(front, p));
                    let i = choose|i: int| 0 <= i < head.len() && span_has(#[trigger] head[i], p);
                    assert(result[i] == head[i]);
                } else {
                    if hole.0 >= hole.1 || hole.1 <= last.0 || last.1 <= hole.0 {
                        assert(tail[0] == last);
                        assert(result[head.len() as int] == tail[0]);
                    } else if p < hole.0 {
                        assert(tail[0] == (last.0, hole.0));
                        assert(result[head.len() as int] == tail[0]);
                    } else {
                        let at = tail.len() - 1;
                        assert(tail[at] == (hole.1, last.1));
                        assert(result[head.len() + at] == tail[at]);
                    }
                }
            }
        }
    }
}

/// The content of a block is made of non-empty spans inside the block, and
/// holds exactly the positions of the block that no nested recorded block
/// holds.
pub proof fn lemma_content_spans(recorded: Seq<Span>, start: usize, end: usize)
    ensures
        parts_within(content_spans(recorded, start, end), start, end),
        forall|p: int|
            #![trigger parts_have(content_spans(recorded, start, end), p)]
            #![trigger claimed(recorded, start, end, p)]
            parts_have(content_spans(recorded, start, end), p) <==> (start <= p < end && !claimed(
                recorded,
                start,
                end,
                p,
            )),
    decreases recorded.len(),
{
    let result = content_spans(recorded, start, end);
    if recorded.len() == 0 {
        assert forall|p: int|
            parts_have(result, p) <==> (start <= p < end && !claimed(recorded, start, end, p)) by {
            if start <= p < end {
                assert(span_has(result[0], p));
            }
        }
    } else {
        let front = recorded.drop_last();
        let last = recorded.last();
        let spans = content_spans(front, start, end);
        lemma_content_spans(front, start, end);
        if nested_in(last, start, end) {
            lemma_cut(spans, last, start, end);
        }
        assert forall|p: int|
            parts_have(result, p) <==> (start <= p < end && !claimed(recorded, start, end, p)) by {
            if claimed(recorded, start, end, p) {
                let j = choose|j: int|
                    0 <= j < recorded.len() && nested_in(#[trigger] recorded[j], start, end)
                        && span_has(recorded[j], p);
                if j < front.len() {
                    assert(front[j] == recorded[j]);
                    assert(claimed(front, start, end, p));
                }
            }
            if claimed(front, start, end, p) {
                let j = choose|j: int|
                    0 <= j < front.len() && nested_in(#[trigger] front[j], start, end) && span_has(
                        front[j],
                        p,
                    );
                assert(recorded[j] == front[j]);
            }
            if nested_in(last, start, end) && span_has(last, p) {
                assert(recorded[recorded.len() - 1] == last);
                assert(claimed(recorded, start, end, p));
            }
        }
    }
}

/// No text of a nested block is content of the enclosing block: a span of
/// the content of the block from `start` to `end` never meets a recorded
/// block that starts strictly inside that block.
pub proof fn lemma_content_excludes_nested(
    recorded: Seq<Span>,
    start: usize,
    end: usize,
    part: int,
    inner: int,
    position: int,
)
    requires
        0 <= part < content_spans(recorded, start, end).len(),
        0 <= inner < recorded.len(),
        nested_in(recorded[inner], start, end),
        span_has(recorded[inner], position),
    ensures
        !span_has(content_spans(recorded, start, end)[part], position),
{
    lemma_content_spans(recorded, start, end);
    assert(claimed(recorded, start, end, position));
    if span_has(content_spans(recorded, start, end)[part], position) {
        assert(parts_have(content_spans(recorded, start, end), position));
    }
}

/// Takes `hole` out of one part.
fn cut_into(parts: &mut Vec<Span>, part: Span, hole: Span)
    ensures
        final(parts)@ == old(parts)@ + cut_span(part, hole),
{
    if hole.0 >= hole.1 || hole.1 <= part.0 || part.1 <= hole.0 {
        parts.push(part);
        assert(parts@ =~= old(parts)@ + cut_span(part, hole));
    } else {
        if part.0 < hole.0 {
            parts.push((part.0, hole.0));
        }
        if hole.1 < part.1 {
            parts.push((hole.1, part.1));
        }
        assert(parts@ =~= old(parts)@ + cut_span(part, hole));
    }
}

/// Takes `hole` out of every part.
pub fn cut_parts(parts: &Vec<Span>, hole: Span) -> (left: Vec<Span>)
    ensures
        left@ == cut(parts@, hole),
{
    let mut left: Vec<Span> = Vec::new();
    let mut i: usize = 0;
    while i < parts.len()
        invariant
            i <= parts.len(),
            left@ == cut(parts@.take(i as int), hole),
        decreases parts.len() - i,
    {
        assert(parts@.take(i + 1).drop_last() =~= parts@.take(i as int));
        cut_into(&mut left, parts[i], hole);
        i += 1;
    }
    assert(parts@.take(i as int) =~= parts@);
    left
}

/// The spans of the block from `start` to `end` that belong to its file
/// alone, given the blocks recorded before it.
pub fn content_ranges(recorded: &Vec<Span>, start: usize, end: usize) -> (parts: Vec<Span>)
    ensures
        parts@ == content_spans(recorded@, start, end),
        parts_within(parts@, start, end),
        forall|p: int|
            parts_have(parts@, p) <==> (start <= p < end && !claimed(recorded@, start, end, p)),
{
    let mut parts: Vec<Span> = Vec::new();
    if start < end {
        parts.push((start, end));
    }
    assert(parts@ =~= content_spans(recorded@.take(0), start, end));
    let mut j: usize = 0;
    while j < recorded.len()
        invariant
            j <= recorded.len(),
            parts@ == content_spans(recorded@.take(j as int), start, end),
        decreases recorded.len() - j,
    {
        assert(recorded@.take(j + 1).drop_last() =~= recorded@.take(j as int));
        let inner = recorded[j];
        if start < inner.0 && inner.0 < end {
            parts = cut_parts(&parts, inner);
        }
        j += 1;
    }
    assert(recorded@.take(j as int) =~= recorded@);
    proof {
        lemma_content_spans(recorded@, start, end);
    }
    parts
}

} // verus!
