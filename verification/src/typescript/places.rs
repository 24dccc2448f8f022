//! Places in a source text as the language server counts them.
use vstd::prelude::*;

use crate::parser::source::{breaks_before, char_from, SourceText};

verus! {

/// The number of UTF-16 units of a character.
pub open spec fn units(c: char) -> nat {
    if (c as int) < 0x10000 {
        1
    } else {
        2
    }
}

/// How many UTF-16 units stand between the last line break and character `n`.
pub open spec fn units_since_break(text: Seq<char>, n: int) -> nat
    decreases n,
{
    if n <= 0 || n > text.len() || text[n - 1] == '\n' {
        0
    } else {
        units_since_break(text, n - 1) + units(text[n - 1])
    }
}

/// The line and the UTF-16 column of byte `at`, counted from zero; those of the end where no
/// character starts there. Both are kept to 32 bits.
pub open spec fn position_at(text: Seq<char>, at: int) -> (u32, u32) {
    let n = char_from(text, at);
    (breaks_before(text, n) as u32, units_since_break(text, n) as u32)
}

proof fn units_are_few(text: Seq<char>, n: int)
    requires
        0 <= n <= text.len(),
    ensures
        units_since_break(text, n) <= crate::text::offset(text, n),
        breaks_before(text, n) <= crate::text::offset(text, n),
    decreases n,
{
    if n > 0 {
        units_are_few(text, n - 1);
    }
}

impl SourceText {
    /// The line and the UTF-16 column of a byte.
    pub fn position(&self, at: usize) -> (r: (u32, u32))
        ensures
            r == position_at(self@, at as int),
    {
        let n = self.char_index_from(at);
        let size = self.byte_count();
        let mut i: usize = 0;
        let mut line: usize = 0;
        let mut column: usize = 0;
        while i < n
            invariant
                i <= n <= self@.len(),
                size == crate::text::offset(self@, self@.len() as int),
                line == breaks_before(self@, i as int),
                column == units_since_break(self@, i as int),
            decreases n - i,
        {
            let c = self.char_number(i);
            proof {
                units_are_few(self@, i + 1);
                if i + 1 < self@.len() {
                    crate::text::offset_grows(self@, i + 1, self@.len() as int);
                }
            }
            if c == '\n' {
                line += 1;
                column = 0;
            } else {
                let wide: char = '\u{10000}';
                column += if c < wide {
                    1
                } else {
                    2
                };
            }
            i += 1;
        }
        (line as u32, column as u32)
    }
}

} // verus!
