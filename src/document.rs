use vstd::prelude::*;
use vstd::string::StrSliceExecFns;
use vstd::string::StringExecFns;
use crate::measure::TextMeasurer;
use crate::wrap::{lemma_wrap_partitions, tiles, wrap, wrap_spans};

verus! {

/// Why an edit or a lookup was refused.
#[derive(Clone, Copy, Debug, PartialEq, Eq, Structural)]
pub enum TextError {
    /// The line index does not name a line of the document.
    OutOfRange,
}

/// One paragraph of the document, without line breaks.
pub struct LogicalLine {
    pub text: String,
}

/// What each of the pieces of text holds.
pub open spec fn str_views(pieces: Seq<&str>) -> Seq<Seq<char>> {
    pieces.map_values(|s: &str| s@)
}

/// The texts of spans of `text`, in order.
pub open spec fn slices(text: Seq<char>, spans: Seq<(int, int)>) -> Seq<Seq<char>> {
    spans.map_values(|s: (int, int)| text.subrange(s.0, s.1))
}

impl LogicalLine {
    pub fn new() -> (r: LogicalLine)
        ensures
            r.text@ == Seq::<char>::empty(),
    {
        LogicalLine { text: String::new() }
    }

    /// The physical lines of this line at `width`, as pieces of its text.
    pub fn get_physical_lines<'a, M: TextMeasurer>(
        &'a self,
        measurer: &M,
        font_size: u32,
        width: u64,
    ) -> (r: Vec<&'a str>)
        ensures
            str_views(r@) == slices(
                self.text@,
                wrap_spans(measurer, self.text@, font_size, width),
            ),
    {
        let text = self.text.as_str();
        let spans = wrap(text, width, font_size, measurer);
        let ghost pairs = wrap_spans(measurer, self.text@, font_size, width);
        proof {
            lemma_wrap_partitions(measurer, self.text@, font_size, width);
        }
        let mut physical_lines: Vec<&'a str> = Vec::new();
        let mut i: usize = 0;
        while i < spans.len()
            invariant
                text@ == self.text@,
                pairs == wrap_spans(measurer, self.text@, font_size, width),
                tiles(pairs, 0, self.text@.len() as int),
                spans@.len() == pairs.len(),
                forall|j: int| 0 <= j < spans@.len() ==> #[trigger] spans@[j].pair() == pairs[j],
                i <= spans.len(),
                str_views(physical_lines@) == slices(self.text@, pairs.take(i as int)),
            decreases spans.len() - i,
        {
            let span = spans[i];
            assert(span.pair() == pairs[i as int]);
            assert(0 <= pairs[i as int].0 <= pairs[i as int].1 <= self.text@.len());
            let piece = text.substring_char(span.start, span.end);
            let ghost prev = physical_lines@;
            physical_lines.push(piece);
            assert(physical_lines@ == prev.push(piece));
            assert(pairs.take(i as int + 1) =~= pairs.take(i as int).push(pairs[i as int]));
            assert(str_views(prev.push(piece)) =~= str_views(prev).push(piece@));
            assert(slices(self.text@, pairs.take(i as int).push(pairs[i as int])) =~= slices(
                self.text@,
                pairs.take(i as int),
            ).push(self.text@.subrange(pairs[i as int].0, pairs[i as int].1)));
            assert(str_views(physical_lines@) == slices(
                self.text@,
                pairs.take(i as int + 1),
            ));
            i = i + 1;
        }
        assert(pairs.take(i as int) =~= pairs);
        physical_lines
    }
}

/// The document: an ordered sequence of logical lines, never empty when
/// freshly made.
pub struct Document {
    pub path: String,
    pub lines: Vec<LogicalLine>,
}

impl Document {
    /// The texts of the lines, in order.
    pub open spec fn texts(&self) -> Seq<Seq<char>> {
        self.lines@.map_values(|l: LogicalLine| l.text@)
    }

    /// A document is never without a line.
    pub open spec fn wf(&self) -> bool {
        self.lines@.len() >= 1
    }

    /// A document of one empty line.
    pub fn new() -> (r: Document)
        ensures
            r.wf(),
            r.texts() == seq![Seq::<char>::empty()],
            r.path@ == "test.txt"@,
    {
        let mut lines: Vec<LogicalLine> = Vec::new();
        lines.push(LogicalLine::new());
        let r = Document { path: String::from_str("test.txt"), lines };
        assert(r.texts() =~= seq![Seq::<char>::empty()]);
        r
    }

    /// The line at `index`.
    pub fn line_at(&self, index: usize) -> (r: Result<&LogicalLine, TextError>)
        ensures
            match r {
                Ok(line) => index < self.lines@.len() && *line == self.lines@[index as int],
                Err(e) => index >= self.lines@.len() && e == TextError::OutOfRange,
            },
    {
        if index < self.lines.len() {
            Ok(&self.lines[index])
        } else {
            Err(TextError::OutOfRange)
        }
    }
}

} // verus!
