use vstd::prelude::*;
use vstd::string::StrSliceExecFns;

verus! {

/// Reports how wide a piece of text is drawn at a nominal character size.
pub trait TextMeasurer {
    /// The width that `measure` reports for `text` at `size`; `None` where
    /// no width can be had.
    spec fn width_of(&self, text: Seq<char>, size: u32) -> Option<u64>;

    fn measure(&self, text: &str, size: u32) -> (r: Option<u64>)
        ensures
            r == self.width_of(text@, size),
    ;
}

/// A measurer for a monospaced font: every character is `char_width` wide.
/// A width too large for a `u64` cannot be had.
pub struct UniformMeasurer {
    pub char_width: u64,
}

impl TextMeasurer for UniformMeasurer {
    open spec fn width_of(&self, text: Seq<char>, size: u32) -> Option<u64> {
        if text.len() * self.char_width <= u64::MAX {
            Some((text.len() * self.char_width) as u64)
        } else {
            None
        }
    }

    fn measure(&self, text: &str, size: u32) -> (r: Option<u64>) {
        let n = text.unicode_len();
        (n as u64).checked_mul(self.char_width)
    }
}

/// The advance width of `c` in `table`: its first entry wins.
pub open spec fn advance_of(table: Seq<(char, u64)>, c: char) -> Option<u64>
    decreases table.len(),
{
    if table.len() == 0 {
        None
    } else if table[0].0 == c {
        Some(table[0].1)
    } else {
        advance_of(table.drop_first(), c)
    }
}

/// The sum of the advance widths of the characters of `text`; `None` when a
/// character has no entry in `table`.
pub open spec fn total_advance(table: Seq<(char, u64)>, text: Seq<char>) -> Option<int>
    decreases text.len(),
{
    if text.len() == 0 {
        Some(0)
    } else {
        match (total_advance(table, text.drop_last()), advance_of(table, text.last())) {
            (Some(a), Some(b)) => Some(a + b),
            _ => None,
        }
    }
}

/// A prefix of a text that has a total advance has one too, and no larger.
pub proof fn lemma_total_advance_prefix(table: Seq<(char, u64)>, text: Seq<char>, k: int)
    requires
        0 <= k <= text.len(),
        total_advance(table, text) is Some,
    ensures
        total_advance(table, text.take(k)) is Some,
        total_advance(table, text.take(k))->0 <= total_advance(table, text)->0,
    decreases text.len(),
{
    if k == text.len() {
        assert(text.take(k) =~= text);
    } else {
        let shorter = text.drop_last();
        lemma_total_advance_prefix(table, shorter, k);
        assert(shorter.take(k) =~= text.take(k));
    }
}

/// A measurer that adds up per-character advance widths, the way a glyph
/// cache measures a string, from a table made for one nominal size. A
/// character missing from the table, another size, or a width too large for
/// a `u64` gives no width.
pub struct AdvanceMeasurer {
    pub size: u32,
    pub advances: Vec<(char, u64)>,
}

impl AdvanceMeasurer {
    /// The advance width of `c`, from the first entry for it.
    pub fn advance(&self, c: char) -> (r: Option<u64>)
        ensures
            r == advance_of(self.advances@, c),
    {
        let mut i: usize = 0;
        assert(self.advances@.skip(0) =~= self.advances@);
        while i < self.advances.len()
            invariant
                i <= self.advances@.len(),
                advance_of(self.advances@, c) == advance_of(self.advances@.skip(i as int), c),
            decreases self.advances.len() - i,
        {
            let entry = self.advances[i];
            assert(self.advances@.skip(i as int).drop_first() =~= self.advances@.skip(
                i as int + 1,
            ));
            if entry.0 == c {
                return Some(entry.1);
            }
            i = i + 1;
        }
        None
    }
}

impl TextMeasurer for AdvanceMeasurer {
    open spec fn width_of(&self, text: Seq<char>, size: u32) -> Option<u64> {
        if size != self.size {
            None
        } else {
            match total_advance(self.advances@, text) {
                Some(w) => if w <= u64::MAX {
                    Some(w as u64)
                } else {
                    None
                },
                None => None,
            }
        }
    }

    fn measure(&self, text: &str, size: u32) -> (r: Option<u64>) {
        if size != self.size {
            return None;
        }
        let n = text.unicode_len();
        let mut total: u64 = 0;
        let mut i: usize = 0;
        assert(text@.take(0) =~= Seq::<char>::empty());
        while i < n
            invariant
                n == text@.len(),
                i <= n,
                total_advance(self.advances@, text@.take(i as int)) == Some(total as int),
            decreases n - i,
        {
            let c = text.get_char(i);
            assert(text@.take(i as int + 1).drop_last() =~= text@.take(i as int));
            assert(text@.take(i as int + 1).last() == c);
            let a = match self.advance(c) {
                Some(a) => a,
                None => {
                    proof {
                        if total_advance(self.advances@, text@) is Some {
                            lemma_total_advance_prefix(self.advances@, text@, i as int + 1);
                        }
                    }
                    return None;
                },
            };
            total = match total.checked_add(a) {
                Some(t) => t,
                None => {
                    proof {
                        if total_advance(self.advances@, text@) is Some {
                            lemma_total_advance_prefix(self.advances@, text@, i as int + 1);
                        }
                    }
                    return None;
                },
            };
            i = i + 1;
        }
        assert(text@.take(n as int) =~= text@);
        Some(total)
    }
}

} // verus!
