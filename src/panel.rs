use vstd::prelude::*;
use vstd::string::StrSliceExecFns;
use vstd::string::StringExecFns;
use crate::cursor::Cursor;
use crate::document::{slices, str_views, Document, TextError};
use crate::measure::TextMeasurer;
use crate::wrap::wrap_spans;

verus! {

/// The nominal character size text is drawn at.
pub const FONT_SIZE: u32 = 75;

/// The physical lines of all of `lines`, in order of logical line, then of
/// physical line within it.
pub open spec fn render_lines<M: TextMeasurer>(
    m: &M,
    lines: Seq<Seq<char>>,
    size: u32,
    target: u64,
) -> Seq<Seq<char>>
    decreases lines.len(),
{
    if lines.len() == 0 {
        Seq::empty()
    } else {
        render_lines(m, lines.drop_last(), size, target) + slices(
            lines.last(),
            wrap_spans(m, lines.last(), size, target),
        )
    }
}

/// One editing pane: a document, the cursor that anchors its edits, and
/// the pane's place and size in the window.
pub struct Panel {
    pub document: Document,
    pub cursor: Cursor,
    /// Width and height.
    pub size: (u64, u64),
    /// Left and top edge.
    pub position: (u64, u64),
}

impl Panel {
    pub fn new() -> (r: Panel)
        ensures
            r.document.wf(),
            r.document.texts() == seq![Seq::<char>::empty()],
            r.cursor.position.line_num == 0,
            r.cursor.position.col_num == 0,
            r.size == (500u64, 500u64),
            r.position == (0u64, 0u64),
    {
        Panel {
            document: Document::new(),
            cursor: Cursor::new(),
            size: (500, 500),
            position: (0, 0),
        }
    }

    /// The index of the line the cursor is on.
    pub open spec fn cursor_line(&self) -> int {
        self.cursor.position.line_num as int
    }

    /// Appends `text` to the line the cursor is on; refused when the cursor
    /// is on no line of the document.
    pub fn add_text(&mut self, text: &str) -> (r: Result<(), TextError>)
        ensures
            r is Ok <==> old(self).cursor_line() < old(self).document.lines@.len(),
            r is Ok ==> final(self).document.texts() == old(self).document.texts().update(
                old(self).cursor_line(),
                old(self).document.texts()[old(self).cursor_line()] + text@,
            ),
            r is Err ==> r == Err::<(), TextError>(TextError::OutOfRange),
            r is Err ==> final(self).document.texts() == old(self).document.texts(),
            final(self).document.lines@.len() == old(self).document.lines@.len(),
            final(self).document.path == old(self).document.path,
            final(self).cursor == old(self).cursor,
            final(self).size == old(self).size,
            final(self).position == old(self).position,
    {
        let index = self.cursor.position.line_num as usize;
        if index >= self.document.lines.len() {
            return Err(TextError::OutOfRange);
        }
        let ghost before = self.document.texts();
        self.document.lines[index].text.append(text);
        assert(self.document.texts() =~= before.update(index as int, before[index as int] + text@));
        Ok(())
    }

    /// Removes up to `amount` characters from the end of the line the
    /// cursor is on, as many as it has; refused when the cursor is on no
    /// line of the document.
    pub fn remove_text(&mut self, amount: usize) -> (r: Result<(), TextError>)
        ensures
            r is Ok <==> old(self).cursor_line() < old(self).document.lines@.len(),
            r is Ok ==> {
                let line = old(self).document.texts()[old(self).cursor_line()];
                let kept = if amount >= line.len() {
                    0
                } else {
                    line.len() - amount
                };
                final(self).document.texts() == old(self).document.texts().update(
                    old(self).cursor_line(),
                    line.take(kept),
                )
            },
            r is Err ==> r == Err::<(), TextError>(TextError::OutOfRange),
            r is Err ==> final(self).document.texts() == old(self).document.texts(),
            final(self).document.lines@.len() == old(self).document.lines@.len(),
            final(self).document.path == old(self).document.path,
            final(self).cursor == old(self).cursor,
            final(self).size == old(self).size,
            final(self).position == old(self).position,
    {
        let index = self.cursor.position.line_num as usize;
        if index >= self.document.lines.len() {
            return Err(TextError::OutOfRange);
        }
        let ghost before = self.document.texts();
        let len = self.document.lines[index].text.as_str().unicode_len();
        let kept = if amount >= len {
            0
        } else {
            len - amount
        };
        let shortened = String::from_str(
            self.document.lines[index].text.as_str().substring_char(0, kept),
        );
        self.document.lines[index].text = shortened;
        assert(self.document.texts() =~= before.update(
            index as int,
            before[index as int].take(kept as int),
        ));
        Ok(())
    }

    /// Every physical line of the document at `target_width`, in order of
    /// logical line, then of physical line within it.
    pub fn get_physical_lines_for_render<'a, M: TextMeasurer>(
        &'a self,
        measurer: &M,
        target_width: u64,
        nominal_size: u32,
    ) -> (r: Vec<&'a str>)
        ensures
            str_views(r@) == render_lines(
                measurer,
                self.document.texts(),
                nominal_size,
                target_width,
            ),
    {
        let lines = &self.document.lines;
        let mut out: Vec<&'a str> = Vec::new();
        let mut i: usize = 0;
        while i < lines.len()
            invariant
                lines@ == self.document.lines@,
                i <= lines@.len(),
                str_views(out@) == render_lines(
                    measurer,
                    self.document.texts().take(i as int),
                    nominal_size,
                    target_width,
                ),
            decreases lines.len() - i,
        {
            let physical = lines[i].get_physical_lines(measurer, nominal_size, target_width);
            let ghost before = str_views(out@);
            let mut j: usize = 0;
            while j < physical.len()
                invariant
                    0 <= j <= physical@.len(),
                        str_views(out@) == before + str_views(physical@.take(j as int)),
                decreases physical.len() - j,
            {
                let ghost prev = out@;
                out.push(physical[j]);
                assert(out@ == prev.push(physical@[j as int]));
                assert(physical@.take(j as int + 1) =~= physical@.take(j as int).push(
                    physical@[j as int],
                ));
                let ghost taken = physical@.take(j as int);
                assert(str_views(prev.push(physical@[j as int])) =~= str_views(prev).push(
                    physical@[j as int]@,
                ));
                assert(str_views(taken.push(physical@[j as int])) =~= str_views(taken).push(
                    physical@[j as int]@,
                ));
                assert(before + str_views(taken).push(physical@[j as int]@) =~= (before
                    + str_views(taken)).push(physical@[j as int]@));
                j = j + 1;
            }
            proof {
                let texts = self.document.texts();
                assert(physical@.take(j as int) =~= physical@);
                assert(texts.take(i as int + 1).drop_last() =~= texts.take(i as int));
                assert(texts.take(i as int + 1).last() == texts[i as int]);
            }
            i = i + 1;
        }
        assert(self.document.texts().take(i as int) =~= self.document.texts());
        out
    }
}

} // verus!
