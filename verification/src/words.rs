//! Taking texts apart.
use vstd::prelude::*;

use crate::order::chars_of;
use crate::text::{is_white_space, text_between, white_space};

verus! {

/// The words in the first `n` characters: those that are complete, and the one being read.
pub open spec fn words_among(text: Seq<char>, n: int) -> (Seq<Seq<char>>, Seq<char>)
    decreases n,
{
    if n <= 0 {
        (Seq::empty(), Seq::empty())
    } else {
        let (done, word) = words_among(text, n - 1);
        if !white_space(text[n - 1]) {
            (done, word.push(text[n - 1]))
        } else if word.len() > 0 {
            (done.push(word), Seq::empty())
        } else {
            (done, word)
        }
    }
}

/// The words of a text: its longest parts without white space.
pub open spec fn words(text: Seq<char>) -> Seq<Seq<char>> {
    let (done, word) = words_among(text, text.len() as int);
    if word.len() > 0 {
        done.push(word)
    } else {
        done
    }
}

pub open spec fn texts_of(list: Seq<String>) -> Seq<Seq<char>> {
    list.map_values(|s: String| s@)
}

/// `str::split_whitespace`.
pub fn split_words(text: &str) -> (r: Vec<String>)
    ensures
        texts_of(r@) == words(text@),
{
    let chars = chars_of(text);
    let mut out: Vec<String> = Vec::new();
    let mut word = String::new();
    let mut i: usize = 0;
    proof {
        assert(texts_of(out@) =~= words_among(text@, 0).0);
        assert(word@ =~= words_among(text@, 0).1);
    }
    while i < chars.len()
        invariant
            i <= chars.len(),
            chars@ == text@,
            texts_of(out@) == words_among(text@, i as int).0,
            word@ == words_among(text@, i as int).1,
        decreases chars.len() - i,
    {
        if !is_white_space(chars[i]) {
            word.push(chars[i]);
        } else if !word.as_str().is_empty() {
            let ghost before = texts_of(out@);
            let ghost w = word@;
            out.push(word);
            assert(texts_of(out@) =~= before.push(w));
            word = String::new();
            assert(word@ =~= Seq::empty());
        }
        i += 1;
    }
    if !word.as_str().is_empty() {
        let ghost before = texts_of(out@);
        let ghost w = word@;
        out.push(word);
        assert(texts_of(out@) =~= before.push(w));
    }
    out
}

/// A text without `lead`, as often as it stands in front.
pub open spec fn without_leads(text: Seq<char>, lead: Seq<char>) -> Seq<char>
    decreases text.len(),
{
    if lead.len() > 0 && lead.is_prefix_of(text) {
        without_leads(text.skip(lead.len() as int), lead)
    } else {
        text
    }
}

/// `str::trim_start_matches` with a text.
pub fn trim_leads(text: &str, lead: &str) -> (r: String)
    ensures
        r@ == without_leads(text@, lead@),
    decreases text@.len(),
{
    if lead.is_empty() {
        return text.to_owned();
    }
    match crate::text::strip_prefix(text, lead) {
        Some(rest) => {
            assert(rest@.len() < text@.len());
            trim_leads(rest.as_str(), lead)
        },
        None => text.to_owned(),
    }
}

/// The place of the first `c` from `i` on; the end of the text where there is none.
pub open spec fn first_place(text: Seq<char>, c: char, i: int) -> int
    decreases text.len() - i,
{
    if i < 0 || i >= text.len() || text[i] == c {
        i
    } else {
        first_place(text, c, i + 1)
    }
}

/// The text in front of the first `c`; the whole text where there is none.
pub open spec fn before_first(text: Seq<char>, c: char) -> Seq<char> {
    text.take(first_place(text, c, 0))
}

pub proof fn first_place_fits(text: Seq<char>, c: char, i: int)
    requires
        0 <= i <= text.len(),
    ensures
        i <= first_place(text, c, i) <= text.len(),
        first_place(text, c, i) < text.len() ==> text[first_place(text, c, i)] == c,
        forall|k: int| i <= k < first_place(text, c, i) ==> text[k] != c,
    decreases text.len() - i,
{
    if i < text.len() && text[i] != c {
        first_place_fits(text, c, i + 1);
    }
}

/// Finds the first `c` from a place on.
pub fn find_first_from(chars: &Vec<char>, c: char, from: usize) -> (r: usize)
    requires
        from <= chars.len(),
    ensures
        r == first_place(chars@, c, from as int),
        from <= r <= chars.len(),
{
    let mut i: usize = from;
    while i < chars.len()
        invariant
            from <= i <= chars.len(),
            first_place(chars@, c, i as int) == first_place(chars@, c, from as int),
        decreases chars.len() - i,
    {
        if chars[i] == c {
            return i;
        }
        i += 1;
    }
    i
}

pub fn take_before(text: &str, c: char) -> (r: String)
    ensures
        r@ == before_first(text@, c),
{
    let chars = chars_of(text);
    let n = find_first_from(&chars, c, 0);
    let r = text_between(&chars, 0, n);
    assert(r@ =~= before_first(text@, c));
    r
}

/// The place behind which `c` no longer occurs among the first `n` characters; zero where it
/// does not occur.
pub open spec fn last_place(text: Seq<char>, c: char, n: int) -> int
    decreases n,
{
    if n <= 0 {
        0
    } else if text[n - 1] == c {
        n
    } else {
        last_place(text, c, n - 1)
    }
}

/// The text behind the last `c`; the whole text where there is none.
pub open spec fn behind_last(text: Seq<char>, c: char) -> Seq<char> {
    text.skip(last_place(text, c, text.len() as int))
}

/// One behind the place of the last `c`, or zero.
pub fn find_last(chars: &Vec<char>, c: char) -> (r: usize)
    ensures
        r == last_place(chars@, c, chars@.len() as int),
        r <= chars.len(),
{
    let mut n: usize = chars.len();
    while n > 0
        invariant
            n <= chars.len(),
            last_place(chars@, c, n as int) == last_place(chars@, c, chars@.len() as int),
        decreases n,
    {
        if chars[n - 1] == c {
            return n;
        }
        n -= 1;
    }
    0
}

pub fn take_behind_last(text: &str, c: char) -> (r: String)
    ensures
        r@ == behind_last(text@, c),
{
    let chars = chars_of(text);
    let n = find_last(&chars, c);
    let r = text_between(&chars, n, chars.len());
    assert(r@ =~= behind_last(text@, c));
    r
}

pub fn has_char(text: &str, c: char) -> (r: bool)
    ensures
        r == text@.contains(c),
{
    let chars = chars_of(text);
    let n = find_first_from(&chars, c, 0);
    proof {
        first_place_fits(text@, c, 0);
        if text@.contains(c) {
            let k = choose|k: int| 0 <= k < text@.len() && text@[k] == c;
            assert(text@[k] == c);
        }
    }
    n < chars.len()
}

/// A text without white space is one word.
pub proof fn ink_is_one_word(text: Seq<char>)
    requires
        text.len() > 0,
        forall|i: int| 0 <= i < text.len() ==> !white_space(#[trigger] text[i]),
    ensures
        words(text) == seq![text],
{
    ink_is_read(text, text.len() as int);
    assert(text.take(text.len() as int) =~= text);
    assert(words(text) =~= seq![text]);
}

proof fn ink_is_read(text: Seq<char>, n: int)
    requires
        0 <= n <= text.len(),
        forall|i: int| 0 <= i < text.len() ==> !white_space(#[trigger] text[i]),
    ensures
        words_among(text, n) == (Seq::<Seq<char>>::empty(), text.take(n)),
    decreases n,
{
    if n > 0 {
        ink_is_read(text, n - 1);
        assert(text.take(n) =~= text.take(n - 1).push(text[n - 1]));
    } else {
        assert(text.take(0) =~= Seq::empty());
    }
}

/// White space parts words: the words of two texts with white space between them are those of
/// the one and of the other.
pub proof fn white_space_parts_words(a: Seq<char>, c: char, b: Seq<char>)
    requires
        white_space(c),
    ensures
        words(a + seq![c] + b) == words(a) + words(b),
{
    let text = a + seq![c] + b;
    words_are_read_on(a, c, b, b.len() as int);
    assert(words(text) =~= words(a) + words(b));
}

proof fn words_are_read_alike(a: Seq<char>, text: Seq<char>, n: int)
    requires
        0 <= n <= a.len() <= text.len(),
        forall|i: int| 0 <= i < a.len() ==> #[trigger] a[i] == text[i],
    ensures
        words_among(a, n) == words_among(text, n),
    decreases n,
{
    if n > 0 {
        words_are_read_alike(a, text, n - 1);
        assert(a[n - 1] == text[n - 1]);
    }
}

proof fn words_are_read_on(a: Seq<char>, c: char, b: Seq<char>, n: int)
    requires
        white_space(c),
        0 <= n <= b.len(),
    ensures
        words_among(a + seq![c] + b, a.len() + 1 + n) == (
            words(a) + words_among(b, n).0,
            words_among(b, n).1,
        ),
    decreases n,
{
    let text = a + seq![c] + b;
    if n > 0 {
        words_are_read_on(a, c, b, n - 1);
        assert(text[a.len() + n] == b[n - 1]);
        let (done, word) = words_among(b, n - 1);
        assert(words(a) + done.push(word) =~= (words(a) + done).push(word));
    } else {
        words_are_read_alike(a, text, a.len() as int);
        assert(text[a.len() as int] == c);
        assert(words(a) + Seq::<Seq<char>>::empty() =~= words(a));
        assert(words_among(text, a.len() as int + 1) == (words(a), Seq::<char>::empty()));
    }
}

/// What stands in front of the first `c`, and behind the last.
pub proof fn texts_are_cut_at_marks(a: Seq<char>, c: char, b: Seq<char>)
    ensures
        !a.contains(c) ==> before_first(a + seq![c] + b, c) == a,
        !b.contains(c) ==> behind_last(a + seq![c] + b, c) == b,
        !a.contains(c) ==> before_first(a, c) == a && behind_last(a, c) == a,
{
    let text = a + seq![c] + b;
    let n = a.len() as int;
    if !a.contains(c) {
        first_place_fits(text, c, 0);
        first_place_fits(a, c, 0);
        let k = first_place(text, c, 0);
        assert(text[n] == c);
        if k < n {
            assert(text[k] == a[k]);
        }
        assert(text.take(n) =~= a);
        let j = first_place(a, c, 0);
        if j < n {
            assert(a.contains(a[j]));
        }
        assert(a.take(n) =~= a);
        last_place_fits(a, c, n);
        let l = last_place(a, c, n);
        if l > 0 {
            assert(a.contains(a[l - 1]));
        }
        assert(a.skip(0) =~= a);
    }
    if !b.contains(c) {
        let m = text.len() as int;
        last_place_fits(text, c, m);
        let l = last_place(text, c, m);
        assert(text[n] == c);
        if l > n + 1 {
            assert(text[l - 1] == b[l - 1 - n - 1]);
            assert(b.contains(b[l - 1 - n - 1]));
        }
        assert(text.skip(n + 1) =~= b);
    }
}

proof fn last_place_fits(text: Seq<char>, c: char, n: int)
    requires
        0 <= n <= text.len(),
    ensures
        0 <= last_place(text, c, n) <= n,
        last_place(text, c, n) > 0 ==> text[last_place(text, c, n) - 1] == c,
        forall|k: int| last_place(text, c, n) <= k < n ==> text[k] != c,
    decreases n,
{
    if n > 0 && text[n - 1] != c {
        last_place_fits(text, c, n - 1);
    }
}

/// A lead is dropped as often as it stands in front.
pub proof fn leads_are_dropped(text: Seq<char>, lead: Seq<char>)
    requires
        lead.len() > 0,
    ensures
        without_leads(lead + text, lead) == without_leads(text, lead),
        !lead.is_prefix_of(text) ==> without_leads(text, lead) == text,
{
    assert(lead.is_prefix_of(lead + text)) by {
        assert((lead + text).take(lead.len() as int) =~= lead);
    }
    assert((lead + text).skip(lead.len() as int) =~= text);
}

} // verus!
