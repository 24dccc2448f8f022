//! Text as sequences of characters: building, cutting and measuring.
use vstd::prelude::*;

use crate::order::{chars_of, models};

verus! {

/// `String::push` appends one character.
pub assume_specification[ std::string::String::push ](text: &mut std::string::String, c: char)
    ensures
        final(text)@ == old(text)@.push(c),
;

/// A character with the White_Space property of Unicode.
pub open spec fn white_space(c: char) -> bool {
    let n = c as u32;
    ||| 0x09 <= n <= 0x0d
    ||| n == 0x20
    ||| n == 0x85
    ||| n == 0xa0
    ||| n == 0x1680
    ||| 0x2000 <= n <= 0x200a
    ||| n == 0x2028
    ||| n == 0x2029
    ||| n == 0x202f
    ||| n == 0x205f
    ||| n == 0x3000
}

pub fn is_white_space(c: char) -> (r: bool)
    ensures
        r == white_space(c),
{
    let n: u32 = c as u32;
    (0x09 <= n && n <= 0x0d) || n == 0x20 || n == 0x85 || n == 0xa0 || n == 0x1680 || (0x2000 <= n
        && n <= 0x200a) || n == 0x2028 || n == 0x2029 || n == 0x202f || n == 0x205f || n == 0x3000
}

/// The text `{:?}` prints for a string: quoted, with the characters escaped that Rust escapes.
pub uninterp spec fn debug_quoted(text: Seq<char>) -> Seq<char>;

/// `format!` with `{:?}` on a string slice; its output depends on the text alone. It is the text
/// as a quoted literal with the quote, the backslash and other characters as their literal escape
/// codes, so no other text is printed the same.
#[verifier::external_body]
pub(crate) fn debug_text(text: &str) -> (r: String)
    ensures
        r@ == debug_quoted(text@),
        forall|other: Seq<char>| #[trigger] debug_quoted(other) == r@ ==> other == text@,
{
    format!("{text:?}")
}

/// The characters `from..to` of `chars` as text.
pub fn text_between(chars: &Vec<char>, from: usize, to: usize) -> (r: String)
    requires
        from <= to <= chars.len(),
    ensures
        r@ == chars@.subrange(from as int, to as int),
{
    let mut out = String::new();
    let mut i: usize = from;
    while i < to
        invariant
            from <= i <= to <= chars.len(),
            out@ == chars@.subrange(from as int, i as int),
        decreases to - i,
    {
        out.push(chars[i]);
        i += 1;
        assert(out@ =~= chars@.subrange(from as int, i as int));
    }
    assert(out@ =~= chars@.subrange(from as int, to as int));
    out
}

/// `a` followed by `b`.
pub fn join2(a: &str, b: &str) -> (r: String)
    ensures
        r@ == a@ + b@,
{
    let mut out = a.to_owned();
    out.append(b);
    out
}

/// `a`, `b` and `c` in a row.
pub fn join3(a: &str, b: &str, c: &str) -> (r: String)
    ensures
        r@ == a@ + b@ + c@,
{
    let mut out = a.to_owned();
    out.append(b);
    out.append(c);
    out
}

/// Whether two texts are the same.
pub fn same(a: &str, b: &str) -> (r: bool)
    ensures
        r == (a@ == b@),
{
    a.to_owned() == b.to_owned()
}

pub fn starts_with(text: &str, prefix: &str) -> (r: bool)
    ensures
        r == prefix@.is_prefix_of(text@),
{
    let t = chars_of(text);
    let p = chars_of(prefix);
    if p.len() > t.len() {
        return false;
    }
    let mut i: usize = 0;
    while i < p.len()
        invariant
            i <= p.len() <= t.len(),
            t@ == text@,
            p@ == prefix@,
            forall|j: int| 0 <= j < i ==> t@[j] == p@[j],
        decreases p.len() - i,
    {
        if t[i] != p[i] {
            assert(t@.subrange(0, p@.len() as int)[i as int] != p@[i as int]);
            return false;
        }
        i += 1;
    }
    assert(p@ =~= t@.subrange(0, p@.len() as int));
    true
}

pub fn ends_with(text: &str, suffix: &str) -> (r: bool)
    ensures
        r == suffix@.is_suffix_of(text@),
{
    let t = chars_of(text);
    let p = chars_of(suffix);
    if p.len() > t.len() {
        return false;
    }
    let base = t.len() - p.len();
    let mut i: usize = 0;
    while i < p.len()
        invariant
            i <= p.len() <= t.len(),
            base == t.len() - p.len(),
            t@ == text@,
            p@ == suffix@,
            forall|j: int| 0 <= j < i ==> t@[base + j] == p@[j],
        decreases p.len() - i,
    {
        if t[base + i] != p[i] {
            assert(t@.subrange(base as int, t@.len() as int)[i as int] != p@[i as int]);
            return false;
        }
        i += 1;
    }
    assert(p@ =~= t@.subrange(base as int, t@.len() as int));
    true
}

/// Whether `c` is the first character.
pub fn starts_with_char(text: &str, c: char) -> (r: bool)
    ensures
        r == (text@.len() > 0 && text@[0] == c),
{
    let t = chars_of(text);
    t.len() > 0 && t[0] == c
}

/// What is left of `text` behind `prefix`.
pub open spec fn behind(text: Seq<char>, prefix: Seq<char>) -> Option<Seq<char>> {
    if prefix.is_prefix_of(text) {
        Some(text.skip(prefix.len() as int))
    } else {
        None
    }
}

pub fn strip_prefix(text: &str, prefix: &str) -> (r: Option<String>)
    ensures
        match r {
            Some(rest) => behind(text@, prefix@) == Some(rest@),
            None => behind(text@, prefix@) is None,
        },
{
    if starts_with(text, prefix) {
        let t = chars_of(text);
        let n = chars_of(prefix).len();
        let rest = text_between(&t, n, t.len());
        assert(rest@ =~= text@.skip(n as int));
        Some(rest)
    } else {
        None
    }
}

/// `text` without the occurrences of `c` at its start.
pub open spec fn without_leading(text: Seq<char>, c: char) -> Seq<char>
    decreases text.len(),
{
    if text.len() > 0 && text[0] == c {
        without_leading(text.skip(1), c)
    } else {
        text
    }
}

pub fn trim_leading(text: &str, c: char) -> (r: String)
    ensures
        r@ == without_leading(text@, c),
{
    let t = chars_of(text);
    let mut i: usize = 0;
    assert(t@.skip(0) =~= t@);
    while i < t.len() && t[i] == c
        invariant
            i <= t.len(),
            t@ == text@,
            without_leading(t@.skip(i as int), c) == without_leading(text@, c),
        decreases t.len() - i,
    {
        assert(t@.skip(i as int).skip(1) =~= t@.skip(i as int + 1));
        i += 1;
    }
    let r = text_between(&t, i, t.len());
    assert(r@ =~= t@.skip(i as int));
    r
}

/// The index of the first character from `i` on that is not white space.
pub open spec fn first_ink(text: Seq<char>, i: int) -> int
    decreases text.len() - i,
{
    if 0 <= i < text.len() && white_space(text[i]) {
        first_ink(text, i + 1)
    } else {
        i
    }
}

/// The index behind the last character before `i` that is not white space.
pub open spec fn last_ink(text: Seq<char>, i: int) -> int
    decreases i,
{
    if 0 < i <= text.len() && white_space(text[i - 1]) {
        last_ink(text, i - 1)
    } else {
        i
    }
}

/// `text` without white space at its two ends.
pub open spec fn trimmed(text: Seq<char>) -> Seq<char> {
    let from = first_ink(text, 0);
    let to = last_ink(text, text.len() as int);
    if from <= to {
        text.subrange(from, to)
    } else {
        Seq::empty()
    }
}

pub fn trim(text: &str) -> (r: String)
    ensures
        r@ == trimmed(text@),
{
    let t = chars_of(text);
    let mut from: usize = 0;
    while from < t.len() && is_white_space(t[from])
        invariant
            from <= t.len(),
            first_ink(t@, from as int) == first_ink(t@, 0),
        decreases t.len() - from,
    {
        from += 1;
    }
    let mut to: usize = t.len();
    while to > 0 && is_white_space(t[to - 1])
        invariant
            to <= t.len(),
            last_ink(t@, to as int) == last_ink(t@, t@.len() as int),
        decreases to,
    {
        to -= 1;
    }
    if from <= to {
        text_between(&t, from, to)
    } else {
        String::new()
    }
}

/// The pieces of `text` between the occurrences of `c`.
pub open spec fn pieces(text: Seq<char>, c: char) -> Seq<Seq<char>>
    decreases text.len(),
{
    if text.len() == 0 {
        seq![Seq::<char>::empty()]
    } else {
        let init = pieces(text.drop_last(), c);
        if text.last() == c {
            init.push(Seq::empty())
        } else {
            init.drop_last().push(init.last().push(text.last()))
        }
    }
}

/// A text without `c` is one piece.
pub proof fn whole_is_one_piece(text: Seq<char>, c: char)
    requires
        !text.contains(c),
    ensures
        pieces(text, c) == seq![text],
    decreases text.len(),
{
    if text.len() > 0 {
        let init = text.drop_last();
        assert forall|i: int| 0 <= i < init.len() implies init[i] != c by {
            assert(init[i] == text[i]);
            assert(text.contains(text[i]));
        }
        whole_is_one_piece(init, c);
        assert(text.contains(text[text.len() - 1]));
        assert(init.push(text.last()) =~= text);
        assert(pieces(text, c) =~= seq![text]);
    } else {
        assert(text =~= Seq::empty());
    }
}

/// Splits `text` at every `c`.
pub fn split_on(text: &str, c: char) -> (r: Vec<String>)
    ensures
        models(r@) == pieces(text@, c),
        r.len() > 0,
{
    let t = chars_of(text);
    let mut out: Vec<String> = Vec::new();
    let mut current = String::new();
    let mut i: usize = 0;
    assert(t@.take(0) =~= Seq::<char>::empty());
    assert(models(out@).push(current@) =~= pieces(t@.take(0), c));
    while i < t.len()
        invariant
            i <= t.len(),
            t@ == text@,
            models(out@).push(current@) == pieces(t@.take(i as int), c),
        decreases t.len() - i,
    {
        let ghost upto = t@.take(i as int + 1);
        let ghost list = models(out@);
        assert(upto.drop_last() =~= t@.take(i as int));
        if t[i] == c {
            let ghost done = current@;
            out.push(current);
            current = String::new();
            assert(models(out@) =~= list.push(done));
        } else {
            let ghost done = current@;
            current.push(t[i]);
            assert(list.push(done).drop_last() =~= list);
        }
        i += 1;
        assert(models(out@).push(current@) =~= pieces(upto, c));
    }
    let ghost list = models(out@);
    let ghost done = current@;
    out.push(current);
    assert(models(out@) =~= list.push(done));
    assert(t@.take(i as int) =~= t@);
    out
}

/// The texts in `parts` with `between` between each two.
pub open spec fn joined(parts: Seq<Seq<char>>, between: Seq<char>) -> Seq<char>
    decreases parts.len(),
{
    if parts.len() == 0 {
        Seq::empty()
    } else if parts.len() == 1 {
        parts[0]
    } else {
        joined(parts.drop_last(), between) + between + parts.last()
    }
}

pub fn join(parts: &Vec<String>, between: &str) -> (r: String)
    ensures
        r@ == joined(models(parts@), between@),
{
    let ghost all = models(parts@);
    let mut out = String::new();
    let mut i: usize = 0;
    assert(all.take(0) =~= Seq::<Seq<char>>::empty());
    while i < parts.len()
        invariant
            i <= parts.len(),
            all == models(parts@),
            out@ == joined(all.take(i as int), between@),
        decreases parts.len() - i,
    {
        assert(all.take(i as int + 1).drop_last() =~= all.take(i as int));
        assert(all.take(i as int + 1).last() == parts@[i as int]@);
        if i > 0 {
            out.append(between);
        }
        let ghost before = out@;
        out.append(parts[i].as_str());
        if i == 0 {
            assert(out@ =~= parts@[0]@);
        }
        i += 1;
    }
    assert(all.take(i as int) =~= all);
    out
}

pub open spec fn digit(d: nat) -> char {
    if d == 0 {
        '0'
    } else if d == 1 {
        '1'
    } else if d == 2 {
        '2'
    } else if d == 3 {
        '3'
    } else if d == 4 {
        '4'
    } else if d == 5 {
        '5'
    } else if d == 6 {
        '6'
    } else if d == 7 {
        '7'
    } else if d == 8 {
        '8'
    } else {
        '9'
    }
}

/// A number in decimal notation.
pub open spec fn decimal(n: nat) -> Seq<char>
    decreases n,
{
    if n < 10 {
        seq![digit(n)]
    } else {
        decimal(n / 10).push(digit(n % 10))
    }
}

fn digit_char(d: usize) -> (r: char)
    requires
        d < 10,
    ensures
        r == digit(d as nat),
{
    match d {
        0 => '0',
        1 => '1',
        2 => '2',
        3 => '3',
        4 => '4',
        5 => '5',
        6 => '6',
        7 => '7',
        8 => '8',
        _ => '9',
    }
}

/// Writes a number in decimal notation.
pub fn decimal_text(n: usize) -> (r: String)
    ensures
        r@ == decimal(n as nat),
    decreases n,
{
    if n < 10 {
        let mut out = String::new();
        out.push(digit_char(n));
        assert(out@ =~= seq![digit(n as nat)]);
        out
    } else {
        let mut out = decimal_text(n / 10);
        out.push(digit_char(n % 10));
        out
    }
}

/// The number of bytes that UTF-8 spends on a character.
pub open spec fn width(c: char) -> nat {
    if (c as int) < 0x80 {
        1
    } else if (c as int) < 0x800 {
        2
    } else if (c as int) < 0x10000 {
        3
    } else {
        4
    }
}

/// The number of UTF-8 bytes in front of character `i`.
pub open spec fn offset(text: Seq<char>, i: int) -> nat
    decreases i,
{
    if i <= 0 || i > text.len() {
        0
    } else {
        offset(text, i - 1) + width(text[i - 1])
    }
}

pub proof fn offset_grows(text: Seq<char>, i: int, j: int)
    requires
        0 <= i < j <= text.len(),
    ensures
        offset(text, i) < offset(text, j),
    decreases j,
{
    if i < j - 1 {
        offset_grows(text, i, j - 1);
    }
}

/// The character index that stands at byte `at`, where a character starts or the text ends there.
pub open spec fn boundary(text: Seq<char>, at: int, i: int) -> bool {
    0 <= i <= text.len() && offset(text, i) == at
}

pub fn char_width(c: char) -> (r: usize)
    ensures
        r == width(c),
{
    let two: char = '\u{80}';
    let three: char = '\u{800}';
    let four: char = '\u{10000}';
    if c < two {
        1
    } else if c < three {
        2
    } else if c < four {
        3
    } else {
        4
    }
}

/// The text between two byte offsets; nothing where they do not delimit whole characters.
pub open spec fn byte_slice(text: Seq<char>, from: int, to: int) -> Option<Seq<char>> {
    if exists|i: int, j: int| boundary(text, from, i) && boundary(text, to, j) && i <= j {
        let (i, j) = choose|i: int, j: int|
            boundary(text, from, i) && boundary(text, to, j) && i <= j;
        Some(text.subrange(i, j))
    } else {
        None
    }
}

pub proof fn boundary_is_unique(text: Seq<char>, at: int, i: int, j: int)
    requires
        boundary(text, at, i),
        boundary(text, at, j),
    ensures
        i == j,
{
    if i < j {
        offset_grows(text, i, j);
    } else if j < i {
        offset_grows(text, j, i);
    }
}

/// The pieces of a text, joined by the character that parts them, are the text, and the character
/// is in none of them.
pub proof fn pieces_join_to_the_text(text: Seq<char>, c: char)
    ensures
        pieces(text, c).len() > 0,
        joined(pieces(text, c), seq![c]) == text,
        forall|i: int| 0 <= i < pieces(text, c).len() ==> !(#[trigger] pieces(text, c)[i]).contains(c),
    decreases text.len(),
{
    if text.len() > 0 {
        let init = pieces(text.drop_last(), c);
        pieces_join_to_the_text(text.drop_last(), c);
        let all = pieces(text, c);
        assert(text =~= text.drop_last().push(text.last()));
        if text.last() == c {
            assert(all.drop_last() =~= init);
            assert(joined(all, seq![c]) =~= joined(init, seq![c]) + seq![c]);
        } else {
            let piece = init.last();
            assert(all.drop_last() =~= init.drop_last());
            assert(joined(all, seq![c]) =~= joined(init, seq![c]).push(text.last()));
            assert forall|i: int| 0 <= i < all.len() implies !(#[trigger] all[i]).contains(c) by {
                if i == all.len() - 1 {
                    assert(!init[i].contains(c));
                    assert forall|k: int| 0 <= k < all[i].len() implies all[i][k] != c by {
                        if k < piece.len() {
                            assert(piece[k] == all[i][k]);
                        }
                    }
                } else {
                    assert(all[i] == init[i]);
                }
            }
        }
    } else {
        assert(joined(pieces(text, c), seq![c]) =~= text);
    }
}

/// The pieces of two texts with the character between them are those of the one and of the other.
pub proof fn pieces_of_two(a: Seq<char>, b: Seq<char>, c: char)
    ensures
        pieces(a + seq![c] + b, c) == pieces(a, c) + pieces(b, c),
    decreases b.len(),
{
    let whole = a + seq![c] + b;
    pieces_join_to_the_text(a, c);
    pieces_join_to_the_text(b, c);
    if b.len() == 0 {
        assert(whole.drop_last() =~= a);
        assert(pieces(whole, c) =~= pieces(a, c) + pieces(b, c));
    } else {
        pieces_of_two(a, b.drop_last(), c);
        pieces_join_to_the_text(b.drop_last(), c);
        assert(whole.drop_last() =~= a + seq![c] + b.drop_last());
        assert(whole.last() == b.last());
        let init = pieces(b.drop_last(), c);
        assert((pieces(a, c) + init).last() == init.last());
        assert((pieces(a, c) + init).drop_last() =~= pieces(a, c) + init.drop_last());
        assert(pieces(whole, c) =~= pieces(a, c) + pieces(b, c));
    }
}

/// Trimming takes white space from the two ends, and all of it.
pub proof fn trimming_takes_white_space(text: Seq<char>)
    ensures
        trimmed(text).len() > 0 ==> !white_space(trimmed(text)[0]) && !white_space(
            trimmed(text).last(),
        ),
        exists|from: int, to: int|
            {
                &&& 0 <= from <= to <= text.len()
                &&& trimmed(text) == #[trigger] text.subrange(from, to)
                &&& forall|i: int| 0 <= i < from ==> white_space(#[trigger] text[i])
                &&& forall|i: int| to <= i < text.len() ==> white_space(#[trigger] text[i])
            },
{
    let n = text.len() as int;
    let from = first_ink(text, 0);
    let to = last_ink(text, n);
    first_ink_fits(text, 0);
    last_ink_fits(text, n);
    if from <= to {
        assert(trimmed(text) == text.subrange(from, to));
    } else {
        assert(trimmed(text) =~= text.subrange(n, n));
        assert(from == n) by {
            if from < n {
                assert(white_space(text[from]));
            }
        }
    }
}

proof fn first_ink_fits(text: Seq<char>, i: int)
    requires
        0 <= i <= text.len(),
    ensures
        i <= first_ink(text, i) <= text.len(),
        forall|k: int| i <= k < first_ink(text, i) ==> white_space(#[trigger] text[k]),
        first_ink(text, i) < text.len() ==> !white_space(text[first_ink(text, i)]),
    decreases text.len() - i,
{
    if i < text.len() && white_space(text[i]) {
        first_ink_fits(text, i + 1);
    }
}

proof fn last_ink_fits(text: Seq<char>, i: int)
    requires
        0 <= i <= text.len(),
    ensures
        0 <= last_ink(text, i) <= i,
        forall|k: int| last_ink(text, i) <= k < i ==> white_space(#[trigger] text[k]),
        last_ink(text, i) > 0 ==> !white_space(text[last_ink(text, i) - 1]),
    decreases i,
{
    if i > 0 && white_space(text[i - 1]) {
        last_ink_fits(text, i - 1);
    }
}

/// What is dropped from the front of a text is the one character, as often as it stands there.
pub proof fn leading_characters_are_dropped(text: Seq<char>, c: char)
    ensures
        without_leading(text, c).len() > 0 ==> without_leading(text, c)[0] != c,
        exists|n: int|
            {
                &&& 0 <= n <= text.len()
                &&& without_leading(text, c) == #[trigger] text.skip(n)
                &&& forall|i: int| 0 <= i < n ==> #[trigger] text[i] == c
            },
    decreases text.len(),
{
    if text.len() > 0 && text[0] == c {
        let rest = text.skip(1);
        leading_characters_are_dropped(rest, c);
        let m = choose|n: int|
            {
                &&& 0 <= n <= rest.len()
                &&& without_leading(rest, c) == #[trigger] rest.skip(n)
                &&& forall|i: int| 0 <= i < n ==> #[trigger] rest[i] == c
            };
        assert(rest.skip(m) =~= text.skip(m + 1));
        assert forall|i: int| 0 <= i < m + 1 implies #[trigger] text[i] == c by {
            if i > 0 {
                assert(rest[i - 1] == c);
            }
        }
    } else {
        assert(text.skip(0) =~= text);
    }
}

/// Texts without a character, joined by it, are the pieces of what they make.
pub proof fn joined_texts_are_pieces(parts: Seq<Seq<char>>, c: char)
    requires
        parts.len() > 0,
        forall|i: int| 0 <= i < parts.len() ==> !(#[trigger] parts[i]).contains(c),
    ensures
        pieces(joined(parts, seq![c]), c) == parts,
    decreases parts.len(),
{
    if parts.len() == 1 {
        whole_is_one_piece(parts[0], c);
        assert(parts =~= seq![parts[0]]);
    } else {
        let front = parts.drop_last();
        assert forall|i: int| 0 <= i < front.len() implies !(#[trigger] front[i]).contains(c) by {
            assert(front[i] == parts[i]);
        }
        joined_texts_are_pieces(front, c);
        assert(!parts[parts.len() - 1].contains(c));
        whole_is_one_piece(parts.last(), c);
        pieces_of_two(joined(front, seq![c]), parts.last(), c);
        assert(front + seq![parts.last()] =~= parts);
    }
}

/// White space behind a text that neither starts nor ends in it is all that trimming takes.
pub proof fn white_space_behind_is_trimmed(text: Seq<char>, space: Seq<char>)
    requires
        text.len() > 0,
        !white_space(text[0]),
        !white_space(text.last()),
        forall|i: int| 0 <= i < space.len() ==> white_space(#[trigger] space[i]),
    ensures
        trimmed(text + space) == text,
{
    let whole = text + space;
    trimming_takes_white_space(whole);
    let (from, to) = choose|from: int, to: int|
        {
            &&& 0 <= from <= to <= whole.len()
            &&& trimmed(whole) == #[trigger] whole.subrange(from, to)
            &&& forall|i: int| 0 <= i < from ==> white_space(#[trigger] whole[i])
            &&& forall|i: int| to <= i < whole.len() ==> white_space(#[trigger] whole[i])
        };
    let n = text.len() as int;
    assert(whole[0] == text[0] && whole[n - 1] == text[n - 1]);
    assert(from == 0) by {
        if from > 0 {
            assert(white_space(whole[0]));
        }
    }
    assert(to >= n) by {
        if to < n {
            assert(white_space(whole[n - 1]));
        }
    }
    if to > n {
        assert(trimmed(whole).last() == whole[to - 1]);
        assert(whole[to - 1] == space[to - 1 - n]);
    }
    assert(whole.subrange(0, n) =~= text);
}

} // verus!
