//! A source text with the places of its characters.
use vstd::prelude::*;

use crate::order::chars_of;
use crate::parser::SourceLocation;
use crate::text::{
    boundary, boundary_is_unique, byte_slice, offset, offset_grows, pieces, text_between, width,
};

verus! {

/// The next number, or the largest there is.
pub open spec fn next_count(n: nat) -> usize {
    if n < usize::MAX {
        (n + 1) as usize
    } else {
        usize::MAX
    }
}

/// How many line breaks stand in front of character `n`.
pub open spec fn breaks_before(text: Seq<char>, n: int) -> nat
    decreases n,
{
    if n <= 0 || n > text.len() {
        0
    } else if text[n - 1] == '\n' {
        breaks_before(text, n - 1) + 1
    } else {
        breaks_before(text, n - 1)
    }
}

/// How many characters stand between the last line break and character `n`.
pub open spec fn chars_since_break(text: Seq<char>, n: int) -> nat
    decreases n,
{
    if n <= 0 || n > text.len() || text[n - 1] == '\n' {
        0
    } else {
        chars_since_break(text, n - 1) + 1
    }
}

/// The character that starts at byte `at`; the end of the text where none does.
pub open spec fn char_from(text: Seq<char>, at: int) -> int {
    if exists|i: int| boundary(text, at, i) {
        choose|i: int| boundary(text, at, i)
    } else {
        text.len() as int
    }
}

/// The line and the column of byte `at`, counted from one.
pub open spec fn location_at(text: Seq<char>, at: int) -> SourceLocation {
    let n = char_from(text, at);
    SourceLocation {
        line: next_count(breaks_before(text, n)),
        column: next_count(chars_since_break(text, n)),
    }
}

/// The text between two byte offsets, or nothing where they do not delimit whole characters.
pub open spec fn text_at(text: Seq<char>, from: int, to: int) -> Seq<char> {
    match byte_slice(text, from, to) {
        Some(s) => s,
        None => Seq::empty(),
    }
}

/// A text with the byte offset, the line breaks before and the column of every character and of
/// the end.
pub struct SourceText {
    chars: Vec<char>,
    offsets: Vec<usize>,
    breaks: Vec<usize>,
    columns: Vec<usize>,
}

impl View for SourceText {
    type V = Seq<char>;

    closed spec fn view(&self) -> Seq<char> {
        self.chars@
    }
}

/// UTF-8 spends as many bytes on a text as the widths of its characters add up to.
proof fn encoded_length(text: Seq<char>)
    ensures
        vstd::utf8::encode_utf8(text).len() == offset(text, text.len() as int),
    decreases text.len(),
{
    broadcast use vstd::utf8::char_is_scalar;

    if text.len() > 0 {
        let rest = text.drop_first();
        encoded_length(rest);
        offset_from_front(text, text.len() as int);
        let c = text[0];
        vstd::utf8::char_u32_cast(c, c as u32);
        assert(vstd::utf8::encode_utf8(text) == vstd::utf8::encode_scalar(c as u32)
            + vstd::utf8::encode_utf8(rest));
    }
}

proof fn offset_from_front(text: Seq<char>, n: int)
    requires
        0 < n <= text.len(),
    ensures
        offset(text, n) == width(text[0]) + offset(text.drop_first(), n - 1),
    decreases n,
{
    if n > 1 {
        offset_from_front(text, n - 1);
        assert(text.drop_first()[n - 2] == text[n - 1]);
    } else {
        assert(offset(text, 0) == 0);
    }
}

proof fn counts_are_small(text: Seq<char>, n: int)
    requires
        0 <= n <= text.len(),
    ensures
        breaks_before(text, n) <= n,
        chars_since_break(text, n) <= n,
        n <= offset(text, n),
    decreases n,
{
    if n > 0 {
        counts_are_small(text, n - 1);
    }
}

impl SourceText {
    #[verifier::type_invariant]
    spec fn has_tables(self) -> bool {
        &&& self.offsets@.len() == self.chars@.len() + 1
        &&& self.breaks@.len() == self.chars@.len() + 1
        &&& self.columns@.len() == self.chars@.len() + 1
        &&& forall|i: int|
            0 <= i <= self.chars@.len() ==> #[trigger] self.offsets@[i] == offset(self.chars@, i)
        &&& forall|i: int|
            0 <= i <= self.chars@.len() ==> #[trigger] self.breaks@[i] == breaks_before(
                self.chars@,
                i,
            )
        &&& forall|i: int|
            0 <= i <= self.chars@.len() ==> #[trigger] self.columns@[i] == chars_since_break(
                self.chars@,
                i,
            )
    }

    pub fn new(text: &str) -> (r: SourceText)
        ensures
            r@ == text@,
    {
        let chars = chars_of(text);
        let bytes = text.as_bytes();
        let total: usize = bytes.len();
        proof {
            encoded_length(text@);
        }
        let mut offsets: Vec<usize> = Vec::new();
        let mut breaks: Vec<usize> = Vec::new();
        let mut columns: Vec<usize> = Vec::new();
        offsets.push(0);
        breaks.push(0);
        columns.push(0);
        let mut i: usize = 0;
        while i < chars.len()
            invariant
                i <= chars.len(),
                chars@ == text@,
                offset(chars@, chars@.len() as int) <= usize::MAX,
                offsets@.len() == i + 1,
                breaks@.len() == i + 1,
                columns@.len() == i + 1,
                forall|k: int| 0 <= k <= i ==> #[trigger] offsets@[k] == offset(chars@, k),
                forall|k: int| 0 <= k <= i ==> #[trigger] breaks@[k] == breaks_before(chars@, k),
                forall|k: int| 0 <= k <= i ==> #[trigger] columns@[k] == chars_since_break(chars@, k),
            decreases chars.len() - i,
        {
            let c = chars[i];
            let w = crate::text::char_width(c);
            proof {
                counts_are_small(chars@, i as int);
                if i + 1 < chars@.len() {
                    offset_grows(chars@, i + 1, chars@.len() as int);
                }
            }
            offsets.push(offsets[i] + w);
            if c == '\n' {
                breaks.push(breaks[i] + 1);
                columns.push(0);
            } else {
                breaks.push(breaks[i]);
                columns.push(columns[i] + 1);
            }
            i += 1;
        }
        SourceText { chars, offsets, breaks, columns }
    }

    /// The character that starts at byte `at`.
    fn char_at(&self, at: usize) -> (r: Option<usize>)
        ensures
            match r {
                Some(i) => boundary(self@, at as int, i as int),
                None => forall|i: int| !boundary(self@, at as int, i),
            },
    {
        proof {
            use_type_invariant(self);
        }
        let mut low: usize = 0;
        let mut high: usize = self.offsets.len();
        while low < high
            invariant
                low <= high <= self.offsets@.len(),
                self.offsets@.len() == self.chars@.len() + 1,
                forall|i: int|
                    0 <= i <= self.chars@.len() ==> #[trigger] self.offsets@[i] == offset(
                        self.chars@,
                        i,
                    ),
                forall|i: int| 0 <= i < low ==> #[trigger] self.offsets@[i] < at,
                forall|i: int| high <= i < self.offsets@.len() ==> #[trigger] self.offsets@[i] > at,
            decreases high - low,
        {
            let mid: usize = low + (high - low) / 2;
            let here = self.offsets[mid];
            if here == at {
                return Some(mid);
            }
            if here < at {
                proof {
                    assert forall|i: int| 0 <= i < mid + 1 implies #[trigger] self.offsets@[i] < at by {
                        if i < mid {
                            offset_grows(self.chars@, i, mid as int);
                        }
                    }
                }
                low = mid + 1;
            } else {
                proof {
                    assert forall|i: int| mid <= i < self.offsets@.len() implies #[trigger] self.offsets@[i]
                        > at by {
                        if mid < i {
                            offset_grows(self.chars@, mid as int, i);
                        }
                    }
                }
                high = mid;
            }
        }
        proof {
            assert forall|i: int| !boundary(self@, at as int, i) by {
                if 0 <= i <= self.chars@.len() {
                    assert(self.offsets@[i] == offset(self.chars@, i));
                }
            }
        }
        None
    }

    /// The character that starts at byte `at`; the end of the text where none does.
    pub(crate) fn char_index_from(&self, at: usize) -> (r: usize)
        ensures
            r == char_from(self@, at as int),
            r <= self@.len(),
    {
        match self.char_at(at) {
            Some(i) => {
                proof {
                    let j = choose|j: int| boundary(self@, at as int, j);
                    boundary_is_unique(self@, at as int, i as int, j);
                }
                i
            },
            None => self.chars.len(),
        }
    }

    pub(crate) fn char_number(&self, i: usize) -> (r: char)
        requires
            i < self@.len(),
        ensures
            r == self@[i as int],
    {
        self.chars[i]
    }

    /// The number of bytes of the text.
    pub(crate) fn byte_count(&self) -> (r: usize)
        ensures
            r == offset(self@, self@.len() as int),
    {
        proof {
            use_type_invariant(self);
        }
        self.offsets[self.chars.len()]
    }

    pub fn location(&self, at: usize) -> (r: SourceLocation)
        ensures
            r == location_at(self@, at as int),
    {
        proof {
            use_type_invariant(self);
        }
        let n = self.char_index_from(at);
        let breaks = self.breaks[n];
        let column = self.columns[n];
        SourceLocation {
            line: if breaks < usize::MAX {
                breaks + 1
            } else {
                usize::MAX
            },
            column: if column < usize::MAX {
                column + 1
            } else {
                usize::MAX
            },
        }
    }

    /// The text between two byte offsets, where they delimit whole characters.
    pub fn get(&self, from: usize, to: usize) -> (r: Option<String>)
        ensures
            match r {
                Some(s) => byte_slice(self@, from as int, to as int) == Some(s@),
                None => byte_slice(self@, from as int, to as int) is None,
            },
    {
        let a = self.char_at(from);
        let b = self.char_at(to);
        match (a, b) {
            (Some(i), Some(j)) => {
                if i <= j {
                    let s = text_between(&self.chars, i, j);
                    proof {
                        let t = self@;
                        assert(boundary(t, from as int, i as int) && boundary(t, to as int, j as int));
                        let (i2, j2) = choose|i2: int, j2: int|
                            boundary(t, from as int, i2) && boundary(t, to as int, j2) && i2 <= j2;
                        boundary_is_unique(t, from as int, i as int, i2);
                        boundary_is_unique(t, to as int, j as int, j2);
                    }
                    Some(s)
                } else {
                    proof {
                        let t = self@;
                        assert forall|i2: int, j2: int|
                            !(boundary(t, from as int, i2) && boundary(t, to as int, j2) && i2 <= j2) by {
                            if boundary(t, from as int, i2) && boundary(t, to as int, j2) {
                                boundary_is_unique(t, from as int, i as int, i2);
                                boundary_is_unique(t, to as int, j as int, j2);
                            }
                        }
                    }
                    None
                }
            },
            _ => None,
        }
    }

    pub fn text(&self, from: usize, to: usize) -> (r: String)
        ensures
            r@ == text_at(self@, from as int, to as int),
    {
        match self.get(from, to) {
            Some(s) => s,
            None => {
                let s = String::new();
                assert(s@ =~= Seq::empty());
                s
            },
        }
    }
}

proof fn counts_follow_the_lines(text: Seq<char>, n: int)
    requires
        0 <= n <= text.len(),
    ensures
        pieces(text.take(n), '\n').len() == breaks_before(text, n) + 1,
        pieces(text.take(n), '\n').last().len() == chars_since_break(text, n),
    decreases n,
{
    let front = text.take(n);
    if n > 0 {
        counts_follow_the_lines(text, n - 1);
        assert(front.drop_last() =~= text.take(n - 1));
        assert(front.last() == text[n - 1]);
    } else {
        assert(front =~= Seq::empty());
    }
}

/// The line of a place is the number of lines up to it, and its column one more than the length
/// of what stands in front of it in its line.
pub proof fn places_count_lines_and_characters(text: Seq<char>, at: int, n: int)
    requires
        boundary(text, at, n),
        0 <= n <= text.len(),
        text.len() < usize::MAX,
    ensures
        location_at(text, at).line == pieces(text.take(n), '\n').len(),
        location_at(text, at).column == pieces(text.take(n), '\n').last().len() + 1,
{
    let m = char_from(text, at);
    assert(boundary(text, at, m));
    boundary_is_unique(text, at, n, m);
    counts_follow_the_lines(text, n);
    breaks_are_few(text, n);
}

proof fn breaks_are_few(text: Seq<char>, n: int)
    requires
        0 <= n <= text.len(),
    ensures
        breaks_before(text, n) <= n,
        chars_since_break(text, n) <= n,
    decreases n,
{
    if n > 0 {
        breaks_are_few(text, n - 1);
    }
}

} // verus!
