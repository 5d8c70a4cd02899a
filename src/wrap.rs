use vstd::prelude::*;
use vstd::string::StrSliceExecFns;
use crate::measure::TextMeasurer;

verus! {

/// A physical line: the characters `start..end` of a logical line, counted
/// in `char`s, not bytes.
#[derive(Clone, Copy, Debug, PartialEq, Eq, Structural)]
pub struct Span {
    pub start: usize,
    pub end: usize,
}

impl Span {
    pub open spec fn pair(self) -> (int, int) {
        (self.start as int, self.end as int)
    }
}

/// The spans as pairs of integers.
pub open spec fn span_pairs(spans: Seq<Span>) -> Seq<(int, int)> {
    spans.map_values(|s: Span| s.pair())
}

/// Whether the candidate line `text[start..end]` is wider than `target`.
/// A candidate that cannot be measured does not count as too wide.
pub open spec fn overflows<M: TextMeasurer>(
    m: &M,
    text: Seq<char>,
    start: int,
    end: int,
    size: u32,
    target: u64,
) -> bool {
    match m.width_of(text.subrange(start, end), size) {
        Some(w) => w > target,
        None => false,
    }
}

/// The end of the physical line that starts at `start`, searching from the
/// candidate end `end` on: the first candidate end whose line is too wide
/// (its last character stays on the line), else the end of the text.
pub open spec fn line_end_from<M: TextMeasurer>(
    m: &M,
    text: Seq<char>,
    start: int,
    end: int,
    size: u32,
    target: u64,
) -> int
    decreases text.len() - end,
{
    if end >= text.len() || overflows(m, text, start, end, size, target) {
        end
    } else {
        line_end_from(m, text, start, end + 1, size, target)
    }
}

/// The end of the physical line that starts at `start`: at least one
/// character is always taken.
pub open spec fn line_end<M: TextMeasurer>(
    m: &M,
    text: Seq<char>,
    start: int,
    size: u32,
    target: u64,
) -> int {
    line_end_from(m, text, start, start + 1, size, target)
}

/// The physical lines of `text` from `start` on, greedily filled.
pub open spec fn spans_from<M: TextMeasurer>(
    m: &M,
    text: Seq<char>,
    start: int,
    size: u32,
    target: u64,
) -> Seq<(int, int)>
    decreases text.len() - start,
{
    if start >= text.len() {
        Seq::empty()
    } else {
        proof {
            lemma_line_end_from_bounds(m, text, start, start + 1, size, target);
        }
        let e = line_end(m, text, start, size, target);
        seq![(start, e)] + spans_from(m, text, e, size, target)
    }
}

/// The physical lines of `text`: one empty span for an empty text.
pub open spec fn wrap_spans<M: TextMeasurer>(
    m: &M,
    text: Seq<char>,
    size: u32,
    target: u64,
) -> Seq<(int, int)> {
    if text.len() == 0 {
        seq![(0int, 0int)]
    } else {
        spans_from(m, text, 0, size, target)
    }
}

/// The texts of the spans, one after the other.
pub open spec fn join_spans(text: Seq<char>, spans: Seq<(int, int)>) -> Seq<char>
    decreases spans.len(),
{
    if spans.len() == 0 {
        Seq::empty()
    } else {
        text.subrange(spans[0].0, spans[0].1) + join_spans(text, spans.drop_first())
    }
}

/// The spans cover `lo..hi` in order, each starting where the one before it
/// ended.
pub open spec fn tiles(spans: Seq<(int, int)>, lo: int, hi: int) -> bool {
    &&& spans.len() >= 1
    &&& spans[0].0 == lo
    &&& spans.last().1 == hi
    &&& forall|i: int| 0 < i < spans.len() ==> #[trigger] spans[i].0 == spans[i - 1].1
    &&& forall|i: int| 0 <= i < spans.len() ==> lo <= #[trigger] spans[i].0 <= spans[i].1 <= hi
}

/// A physical line found from candidate end `end` ends between `end` and
/// the end of the text.
pub proof fn lemma_line_end_from_bounds<M: TextMeasurer>(
    m: &M,
    text: Seq<char>,
    start: int,
    end: int,
    size: u32,
    target: u64,
)
    requires
        end <= text.len(),
    ensures
        end <= line_end_from(m, text, start, end, size, target) <= text.len(),
    decreases text.len() - end,
{
    if end < text.len() && !overflows(m, text, start, end, size, target) {
        lemma_line_end_from_bounds(m, text, start, end + 1, size, target);
    }
}

proof fn lemma_spans_from_tile<M: TextMeasurer>(
    m: &M,
    text: Seq<char>,
    start: int,
    size: u32,
    target: u64,
)
    requires
        0 <= start < text.len(),
    ensures
        tiles(spans_from(m, text, start, size, target), start, text.len() as int),
        join_spans(text, spans_from(m, text, start, size, target)) == text.subrange(
            start,
            text.len() as int,
        ),
        forall|i: int|
            0 <= i < spans_from(m, text, start, size, target).len() ==> #[trigger] spans_from(
                m,
                text,
                start,
                size,
                target,
            )[i].0 < spans_from(m, text, start, size, target)[i].1,
    decreases text.len() - start,
{
    let n = text.len() as int;
    lemma_line_end_from_bounds(m, text, start, start + 1, size, target);
    let e = line_end(m, text, start, size, target);
    let rest = spans_from(m, text, e, size, target);
    let all = spans_from(m, text, start, size, target);
    assert(all == seq![(start, e)] + rest);
    assert(all.drop_first() =~= rest);
    if e < n {
        lemma_spans_from_tile(m, text, e, size, target);
        assert forall|i: int| 0 < i < all.len() implies #[trigger] all[i].0 == all[i - 1].1 by {
            if i > 1 {
                assert(rest[i - 1].0 == rest[i - 2].1);
            }
        }
        assert forall|i: int| 0 <= i < all.len() implies start <= #[trigger] all[i].0
            <= all[i].1 <= n && all[i].0 < all[i].1 by {
            if i > 0 {
                assert(all[i] == rest[i - 1]);
            }
        }
        assert(text.subrange(start, e) + text.subrange(e, n) =~= text.subrange(start, n));
    } else {
        assert(rest =~= Seq::<(int, int)>::empty());
        assert(join_spans(text, rest) =~= Seq::<char>::empty());
        assert(text.subrange(start, e) + Seq::<char>::empty() =~= text.subrange(start, n));
    }
}

/// Wrapping neither loses nor repeats nor reorders text: joined back
/// together, the physical lines give the logical line; they start at 0, end
/// at its length, and each starts where the one before it ended. Only the
/// empty text gives an empty span.
pub proof fn lemma_wrap_partitions<M: TextMeasurer>(
    m: &M,
    text: Seq<char>,
    size: u32,
    target: u64,
)
    ensures
        join_spans(text, wrap_spans(m, text, size, target)) == text,
        tiles(wrap_spans(m, text, size, target), 0, text.len() as int),
        text.len() > 0 ==> forall|i: int|
            0 <= i < wrap_spans(m, text, size, target).len() ==> #[trigger] wrap_spans(
                m,
                text,
                size,
                target,
            )[i].0 < wrap_spans(m, text, size, target)[i].1,
{
    if text.len() == 0 {
        let spans = wrap_spans(m, text, size, target);
        assert(spans.drop_first() =~= Seq::<(int, int)>::empty());
        assert(join_spans(text, spans.drop_first()) == Seq::<char>::empty());
        assert(text.subrange(0, 0) + Seq::<char>::empty() =~= text);
    } else {
        lemma_spans_from_tile(m, text, 0, size, target);
        assert(text.subrange(0, text.len() as int) =~= text);
    }
}

proof fn lemma_line_end_from_first<M: TextMeasurer>(
    m: &M,
    text: Seq<char>,
    start: int,
    end: int,
    size: u32,
    target: u64,
)
    requires
        end <= text.len(),
    ensures
        forall|k: int|
            end <= k < line_end_from(m, text, start, end, size, target) ==> !#[trigger] overflows(
                m,
                text,
                start,
                k,
                size,
                target,
            ),
        line_end_from(m, text, start, end, size, target) < text.len() ==> overflows(
            m,
            text,
            start,
            line_end_from(m, text, start, end, size, target),
            size,
            target,
        ),
    decreases text.len() - end,
{
    if end < text.len() && !overflows(m, text, start, end, size, target) {
        lemma_line_end_from_first(m, text, start, end + 1, size, target);
    }
}

/// Every physical line of a non-empty logical line takes characters while
/// none makes it too wide, and ends just after the first that does (that
/// one stays on it), or at the end of the text. A line that cannot be
/// measured never counts as too wide.
pub proof fn lemma_wrap_breaks_after_overflow<M: TextMeasurer>(
    m: &M,
    text: Seq<char>,
    size: u32,
    target: u64,
    i: int,
)
    requires
        text.len() > 0,
        0 <= i < wrap_spans(m, text, size, target).len(),
    ensures
        ({
            let span = wrap_spans(m, text, size, target)[i];
            &&& forall|k: int|
                span.0 < k < span.1 ==> !#[trigger] overflows(m, text, span.0, k, size, target)
            &&& span.1 < text.len() ==> overflows(m, text, span.0, span.1, size, target)
        }),
{
    lemma_spans_from_breaks(m, text, 0, size, target, i);
}

proof fn lemma_spans_from_breaks<M: TextMeasurer>(
    m: &M,
    text: Seq<char>,
    start: int,
    size: u32,
    target: u64,
    i: int,
)
    requires
        0 <= start < text.len(),
        0 <= i < spans_from(m, text, start, size, target).len(),
    ensures
        ({
            let span = spans_from(m, text, start, size, target)[i];
            &&& forall|k: int|
                span.0 < k < span.1 ==> !#[trigger] overflows(m, text, span.0, k, size, target)
            &&& span.1 < text.len() ==> overflows(m, text, span.0, span.1, size, target)
        }),
    decreases text.len() - start,
{
    lemma_line_end_from_bounds(m, text, start, start + 1, size, target);
    let e = line_end(m, text, start, size, target);
    let rest = spans_from(m, text, e, size, target);
    let all = spans_from(m, text, start, size, target);
    assert(all == seq![(start, e)] + rest);
    if i == 0 {
        lemma_line_end_from_first(m, text, start, start + 1, size, target);
    } else {
        assert(all[i] == rest[i - 1]);
        lemma_spans_from_breaks(m, text, e, size, target, i - 1);
    }
}

/// Wrapping depends on its arguments alone: two results of `wrap` on the
/// same text, width, size and measurer are the same spans.
pub proof fn lemma_wrap_deterministic<M: TextMeasurer>(
    m: &M,
    text: Seq<char>,
    size: u32,
    target: u64,
    first: Seq<Span>,
    second: Seq<Span>,
)
    requires
        span_pairs(first) == wrap_spans(m, text, size, target),
        span_pairs(second) == wrap_spans(m, text, size, target),
    ensures
        first == second,
{
    assert(first.len() == span_pairs(first).len());
    assert forall|i: int| 0 <= i < first.len() implies first[i] == second[i] by {
        assert(span_pairs(first)[i] == span_pairs(second)[i]);
    }
    assert(first =~= second);
}

/// The end of the physical line of `text` that starts at `start`; `len` is
/// the length of `text` in `char`s.
fn next_line_end<M: TextMeasurer>(
    text: &str,
    len: usize,
    start: usize,
    target_width: u64,
    nominal_size: u32,
    measurer: &M,
) -> (end: usize)
    requires
        len == text@.len(),
        start < len,
    ensures
        end == line_end(measurer, text@, start as int, nominal_size, target_width),
{
    let mut end: usize = start;
    loop
        invariant
            len == text@.len(),
            start <= end < len,
            line_end(measurer, text@, start as int, nominal_size, target_width) == line_end_from(
                measurer,
                text@,
                start as int,
                end + 1,
                nominal_size,
                target_width,
            ),
        decreases len - end,
    {
        end = end + 1;
        let candidate = text.substring_char(start, end);
        let too_wide = match measurer.measure(candidate, nominal_size) {
            Some(w) => w > target_width,
            None => false,
        };
        if too_wide || end >= len {
            return end;
        }
    }
}

/// Reflows one logical line into physical lines no wider than
/// `target_width`, as far as greedy filling allows: each line takes
/// characters until one makes it too wide, and keeps that one.
pub fn wrap<M: TextMeasurer>(text: &str, target_width: u64, nominal_size: u32, measurer: &M) -> (r:
    Vec<Span>)
    ensures
        span_pairs(r@) == wrap_spans(measurer, text@, nominal_size, target_width),
{
    let n = text.unicode_len();
    let mut spans: Vec<Span> = Vec::new();
    if n == 0 {
        spans.push(Span { start: 0, end: 0 });
        assert(span_pairs(spans@) =~= seq![(0int, 0int)]);
        return spans;
    }
    let mut start: usize = 0;
    assert(span_pairs(spans@) =~= Seq::<(int, int)>::empty());
    assert(Seq::<(int, int)>::empty() + spans_from(measurer, text@, 0, nominal_size, target_width)
        =~= spans_from(measurer, text@, 0, nominal_size, target_width));
    while start < n
        invariant
            n == text@.len(),
            start <= n,
            span_pairs(spans@) + spans_from(measurer, text@, start as int, nominal_size, target_width)
                == spans_from(measurer, text@, 0, nominal_size, target_width),
        decreases n - start,
    {
        let end = next_line_end(text, n, start, target_width, nominal_size, measurer);
        proof {
            lemma_line_end_from_bounds(
                measurer,
                text@,
                start as int,
                start as int + 1,
                nominal_size,
                target_width,
            );
        }
        let ghost before = span_pairs(spans@);
        spans.push(Span { start, end });
        proof {
            let rest = spans_from(measurer, text@, end as int, nominal_size, target_width);
            assert(span_pairs(spans@) =~= before + seq![(start as int, end as int)]);
            assert(spans_from(measurer, text@, start as int, nominal_size, target_width) == seq![
                (start as int, end as int),
            ] + rest);
            assert(before + seq![(start as int, end as int)] + rest =~= before + (seq![
                (start as int, end as int),
            ] + rest));
        }
        start = end;
    }
    assert(span_pairs(spans@) + spans_from(measurer, text@, n as int, nominal_size, target_width)
        =~= span_pairs(spans@));
    spans
}

} // verus!
