//! File paths as lists of components.
use vstd::prelude::*;

use crate::order::{key_order, lex_precedes, models, text_before, Key, Rank};
use crate::text::{join, joined, pieces, same, split_on};

verus! {

/// One component of a path: the root `/`, `.`, `..`, or a name.
pub struct Part {
    pub text: String,
}

/// The order of components by kind: the root, then `.`, then `..`, then names.
pub open spec fn part_kind(text: Seq<char>) -> int {
    if text == "/"@ {
        0
    } else if text == "."@ {
        1
    } else if text == ".."@ {
        2
    } else {
        3
    }
}

pub open spec fn part_before(a: Seq<char>, b: Seq<char>) -> bool {
    part_kind(a) < part_kind(b) || (part_kind(a) == part_kind(b) && text_before(a, b))
}

fn kind_of(text: &String) -> (r: u8)
    ensures
        r == part_kind(text@),
{
    if same(text.as_str(), "/") {
        0
    } else if same(text.as_str(), ".") {
        1
    } else if same(text.as_str(), "..") {
        2
    } else {
        3
    }
}

impl Key for Part {
    type M = Seq<char>;

    open spec fn model(&self) -> Seq<char> {
        self.text@
    }

    open spec fn precedes(a: Seq<char>, b: Seq<char>) -> bool {
        part_before(a, b)
    }

    proof fn order_laws(a: Seq<char>, b: Seq<char>, c: Seq<char>) {
        String::order_laws(a, b, c);
    }

    fn rank(&self, other: &Part) -> (r: Rank) {
        let a = kind_of(&self.text);
        let b = kind_of(&other.text);
        if a < b {
            Rank::Before
        } else if b < a {
            Rank::After
        } else {
            self.text.rank(&other.text)
        }
    }

    fn dup(&self) -> (r: Part) {
        Part { text: self.text.clone() }
    }
}

/// The components of a slash-separated path. Empty pieces and `.` are dropped, except for a `.`
/// at the very front of a relative path.
pub open spec fn components(text: Seq<char>) -> Seq<Seq<char>> {
    let raw = pieces(text, '/');
    let front = if text.len() > 0 && text[0] == '/' {
        seq!["/"@]
    } else if raw[0] == "."@ {
        seq!["."@]
    } else {
        Seq::empty()
    };
    front + named(raw, raw.len() as int)
}

/// The pieces among the first `n` that are neither empty nor `.`.
pub open spec fn named(raw: Seq<Seq<char>>, n: int) -> Seq<Seq<char>>
    decreases n,
{
    if n <= 0 {
        Seq::empty()
    } else if raw[n - 1].len() == 0 || raw[n - 1] == "."@ {
        named(raw, n - 1)
    } else {
        named(raw, n - 1).push(raw[n - 1])
    }
}

/// The path of a name is that name alone.
pub proof fn names_are_their_components(name: Seq<char>)
    requires
        name.len() > 0,
        name != "."@,
        !name.contains('/'),
    ensures
        components(name) == seq![name],
{
    let raw = pieces(name, '/');
    crate::text::whole_is_one_piece(name, '/');
    assert(name.contains(name[0]));
    reveal_with_fuel(named, 2);
    assert(named(raw, 1) =~= seq![name]);
    assert(components(name) =~= seq![name]);
}

/// The text of a path: its components joined by slashes.
pub open spec fn shown(parts: Seq<Seq<char>>) -> Seq<char> {
    if parts.len() > 0 && parts[0] == "/"@ {
        "/"@ + joined(parts.skip(1), "/"@)
    } else {
        joined(parts, "/"@)
    }
}

/// A path, absolute where its first component is the root. Two paths are the same when their
/// components are; how a path was spelled, with doubled slashes or a `.` inside, is not kept.
pub struct FilePath {
    pub parts: Vec<Part>,
}

impl View for FilePath {
    type V = Seq<Seq<char>>;

    open spec fn view(&self) -> Seq<Seq<char>> {
        models(self.parts@)
    }
}

impl Key for FilePath {
    type M = Seq<Seq<char>>;

    open spec fn model(&self) -> Seq<Seq<char>> {
        self@
    }

    open spec fn precedes(a: Seq<Seq<char>>, b: Seq<Seq<char>>) -> bool {
        lex_precedes(a, b, key_order::<Part>())
    }

    proof fn order_laws(a: Seq<Seq<char>>, b: Seq<Seq<char>>, c: Seq<Seq<char>>) {
        Vec::<Part>::order_laws(a, b, c);
    }

    fn rank(&self, other: &FilePath) -> (r: Rank) {
        self.parts.rank(&other.parts)
    }

    fn dup(&self) -> (r: FilePath) {
        FilePath { parts: self.parts.dup() }
    }
}

/// A name that is no `/`, `.` or `..`.
pub open spec fn is_name(part: Seq<char>) -> bool {
    part_kind(part) == 3
}

pub open spec fn is_absolute(path: Seq<Seq<char>>) -> bool {
    path.len() > 0 && path[0] == "/"@
}

/// The path without its last component; nothing for the root and for the empty path.
pub open spec fn parent_of(path: Seq<Seq<char>>) -> Option<Seq<Seq<char>>> {
    if path.len() == 0 || path.last() == "/"@ {
        None
    } else {
        Some(path.drop_last())
    }
}

/// The last component, where it is a name.
pub open spec fn name_of(path: Seq<Seq<char>>) -> Option<Seq<char>> {
    if path.len() > 0 && is_name(path.last()) {
        Some(path.last())
    } else {
        None
    }
}

/// The index of the last dot in front of position `n`, or -1.
pub open spec fn last_dot(name: Seq<char>, n: int) -> int
    decreases n,
{
    if n <= 0 {
        -1
    } else if name[n - 1] == '.' {
        n - 1
    } else {
        last_dot(name, n - 1)
    }
}

/// The part of a file name behind its last dot, unless that dot is the first character.
pub open spec fn extension_of_name(name: Seq<char>) -> Option<Seq<char>> {
    let dot = last_dot(name, name.len() as int);
    if dot <= 0 {
        None
    } else {
        Some(name.skip(dot + 1))
    }
}

pub open spec fn stem_of_name(name: Seq<char>) -> Seq<char> {
    let dot = last_dot(name, name.len() as int);
    if dot <= 0 {
        name
    } else {
        name.take(dot)
    }
}

pub open spec fn extension_of(path: Seq<Seq<char>>) -> Option<Seq<char>> {
    match name_of(path) {
        Some(name) => extension_of_name(name),
        None => None,
    }
}

pub open spec fn stem_of(path: Seq<Seq<char>>) -> Option<Seq<char>> {
    match name_of(path) {
        Some(name) => Some(stem_of_name(name)),
        None => None,
    }
}

/// `rest` resolved against `base`: an absolute `rest` replaces `base`, and a `.` in front of a
/// relative one disappears behind a non-empty `base`.
pub open spec fn joined_path(base: Seq<Seq<char>>, rest: Seq<Seq<char>>) -> Seq<Seq<char>> {
    if is_absolute(rest) {
        rest
    } else if base.len() > 0 && rest.len() > 0 && rest[0] == "."@ {
        base + rest.skip(1)
    } else {
        base + rest
    }
}

/// `path` with its extension replaced, or unchanged where it ends in no name.
pub open spec fn with_extension(path: Seq<Seq<char>>, extension: Seq<char>) -> Seq<Seq<char>> {
    match name_of(path) {
        Some(name) => path.drop_last().push(
            if extension.len() == 0 {
                stem_of_name(name)
            } else {
                stem_of_name(name) + "."@ + extension
            },
        ),
        None => path,
    }
}

proof fn last_dot_bounds(name: Seq<char>, n: int)
    requires
        0 <= n <= name.len(),
    ensures
        -1 <= last_dot(name, n) < n || n == 0,
        last_dot(name, n) < name.len(),
        last_dot(name, n) >= -1,
    decreases n,
{
    if n > 0 {
        last_dot_bounds(name, n - 1);
    }
}

fn find_last_dot(name: &Vec<char>) -> (r: Option<usize>)
    ensures
        match r {
            Some(i) => last_dot(name@, name@.len() as int) == i && i < name.len(),
            None => last_dot(name@, name@.len() as int) == -1,
        },
{
    let mut n: usize = name.len();
    while n > 0
        invariant
            n <= name.len(),
            last_dot(name@, n as int) == last_dot(name@, name@.len() as int),
        decreases n,
    {
        if name[n - 1] == '.' {
            return Some(n - 1);
        }
        n -= 1;
    }
    None
}

impl FilePath {
    /// Reads a path from its text.
    pub fn parse(text: &str) -> (r: FilePath)
        ensures
            r@ == components(text@),
    {
        let raw = split_on(text, '/');
        let ghost list = models(raw@);
        let mut parts: Vec<Part> = Vec::new();
        if crate::text::starts_with_char(text, '/') {
            parts.push(Part { text: "/".to_owned() });
        } else if same(raw[0].as_str(), ".") {
            parts.push(Part { text: ".".to_owned() });
        }
        let ghost front = models(parts@);
        assert(front =~= components(text@).take(front.len() as int));
        let mut i: usize = 0;
        assert(models(parts@) =~= front + named(list, 0));
        while i < raw.len()
            invariant
                i <= raw.len(),
                list == models(raw@),
                models(parts@) == front + named(list, i as int),
            decreases raw.len() - i,
        {
            if !raw[i].as_str().is_empty() && !same(raw[i].as_str(), ".") {
                let ghost before = models(parts@);
                parts.push(Part { text: raw[i].clone() });
                assert(models(parts@) =~= before.push(list[i as int]));
                assert(models(parts@) =~= front + named(list, i as int + 1));
            }
            i += 1;
        }
        let r = FilePath { parts };
        assert(r@ =~= components(text@));
        r
    }

    /// The path as text.
    pub fn display(&self) -> (r: String)
        ensures
            r@ == shown(self@),
    {
        let rooted = self.parts.len() > 0 && same(self.parts[0].text.as_str(), "/");
        let start: usize = if rooted {
            1
        } else {
            0
        };
        let mut names: Vec<String> = Vec::new();
        let mut i: usize = start;
        while i < self.parts.len()
            invariant
                start <= i <= self.parts.len(),
                models(names@) =~= self@.subrange(start as int, i as int),
            decreases self.parts.len() - i,
        {
            let ghost before = models(names@);
            names.push(self.parts[i].text.clone());
            assert(models(names@) =~= before.push(self@[i as int]));
            i += 1;
        }
        assert(models(names@) =~= self@.skip(start as int));
        assert(self@.skip(0) =~= self@);
        let rest = join(&names, "/");
        if rooted {
            crate::text::join2("/", rest.as_str())
        } else {
            rest
        }
    }

    pub fn is_absolute(&self) -> (r: bool)
        ensures
            r == is_absolute(self@),
    {
        self.parts.len() > 0 && same(self.parts[0].text.as_str(), "/")
    }

    pub fn same_as(&self, other: &FilePath) -> (r: bool)
        ensures
            r == (self@ == other@),
    {
        proof {
            FilePath::order_laws(self@, other@, self@);
        }
        match self.rank(other) {
            Rank::Same => true,
            _ => false,
        }
    }

    pub fn parent(&self) -> (r: Option<FilePath>)
        ensures
            match r {
                Some(p) => parent_of(self@) == Some(p@),
                None => parent_of(self@) is None,
            },
    {
        let n = self.parts.len();
        if n == 0 || same(self.parts[n - 1].text.as_str(), "/") {
            None
        } else {
            let p = self.first(n - 1);
            assert(p@ =~= self@.drop_last());
            Some(p)
        }
    }

    /// The path made of the first `n` components.
    pub fn first(&self, n: usize) -> (r: FilePath)
        requires
            n <= self@.len(),
        ensures
            r@ == self@.take(n as int),
    {
        let mut parts: Vec<Part> = Vec::new();
        let mut i: usize = 0;
        while i < n
            invariant
                i <= n <= self@.len(),
                models(parts@) =~= self@.take(i as int),
            decreases n - i,
        {
            let ghost before = models(parts@);
            let part = self.parts[i].dup();
            parts.push(part);
            assert(models(parts@) =~= before.push(part.model()));
            i += 1;
        }
        FilePath { parts }
    }

    pub fn file_name(&self) -> (r: Option<String>)
        ensures
            match r {
                Some(s) => name_of(self@) == Some(s@),
                None => name_of(self@) is None,
            },
    {
        let n = self.parts.len();
        if n > 0 && kind_of(&self.parts[n - 1].text) == 3 {
            Some(self.parts[n - 1].text.clone())
        } else {
            None
        }
    }

    pub fn extension(&self) -> (r: Option<String>)
        ensures
            match r {
                Some(s) => extension_of(self@) == Some(s@),
                None => extension_of(self@) is None,
            },
    {
        match self.file_name() {
            Some(name) => {
                let chars = crate::order::chars_of(name.as_str());
                match find_last_dot(&chars) {
                    Some(dot) => {
                        if dot == 0 {
                            None
                        } else {
                            let e = crate::text::text_between(&chars, dot + 1, chars.len());
                            assert(e@ =~= name@.skip(dot + 1));
                            Some(e)
                        }
                    },
                    None => None,
                }
            },
            None => None,
        }
    }

    pub fn file_stem(&self) -> (r: Option<String>)
        ensures
            match r {
                Some(s) => stem_of(self@) == Some(s@),
                None => stem_of(self@) is None,
            },
    {
        match self.file_name() {
            Some(name) => {
                let chars = crate::order::chars_of(name.as_str());
                match find_last_dot(&chars) {
                    Some(dot) => {
                        if dot == 0 {
                            Some(name)
                        } else {
                            let e = crate::text::text_between(&chars, 0, dot);
                            assert(e@ =~= name@.take(dot as int));
                            Some(e)
                        }
                    },
                    None => Some(name),
                }
            },
            None => None,
        }
    }

    /// This path with `rest` resolved against it.
    pub fn join(&self, rest: &FilePath) -> (r: FilePath)
        ensures
            r@ == joined_path(self@, rest@),
    {
        if rest.is_absolute() {
            return rest.dup();
        }
        let mut parts: Vec<Part> = self.parts.dup();
        let mut i: usize = 0;
        if self.parts.len() > 0 && rest.parts.len() > 0 && same(rest.parts[0].text.as_str(), ".") {
            i = 1;
        }
        let ghost from = i as int;
        while i < rest.parts.len()
            invariant
                0 <= from <= i <= rest.parts.len(),
                models(parts@) =~= self@ + rest@.subrange(from, i as int),
            decreases rest.parts.len() - i,
        {
            let ghost before = models(parts@);
            let part = rest.parts[i].dup();
            parts.push(part);
            assert(models(parts@) =~= before.push(part.model()));
            i += 1;
        }
        let r = FilePath { parts };
        assert(r@ =~= joined_path(self@, rest@));
        r
    }

    /// This path with the text `rest` resolved against it.
    pub fn join_text(&self, rest: &str) -> (r: FilePath)
        ensures
            r@ == joined_path(self@, components(rest@)),
    {
        self.join(&FilePath::parse(rest))
    }

    pub fn starts_with(&self, base: &FilePath) -> (r: bool)
        ensures
            r == base@.is_prefix_of(self@),
    {
        if base.parts.len() > self.parts.len() {
            return false;
        }
        let mut i: usize = 0;
        while i < base.parts.len()
            invariant
                i <= base.parts.len() <= self.parts.len(),
                forall|j: int| 0 <= j < i ==> self@[j] == base@[j],
            decreases base.parts.len() - i,
        {
            if !same(self.parts[i].text.as_str(), base.parts[i].text.as_str()) {
                assert(self@.subrange(0, base@.len() as int)[i as int] != base@[i as int]);
                return false;
            }
            i += 1;
        }
        assert(base@ =~= self@.subrange(0, base@.len() as int));
        true
    }

    /// What is left of this path below `base`.
    pub fn strip_prefix(&self, base: &FilePath) -> (r: Option<FilePath>)
        ensures
            match r {
                Some(rest) => base@.is_prefix_of(self@) && rest@ == self@.skip(base@.len() as int),
                None => !base@.is_prefix_of(self@),
            },
    {
        if !self.starts_with(base) {
            return None;
        }
        let start = base.parts.len();
        let mut parts: Vec<Part> = Vec::new();
        let mut i: usize = start;
        while i < self.parts.len()
            invariant
                start <= i <= self.parts.len(),
                models(parts@) =~= self@.subrange(start as int, i as int),
            decreases self.parts.len() - i,
        {
            let ghost before = models(parts@);
            let part = self.parts[i].dup();
            parts.push(part);
            assert(models(parts@) =~= before.push(part.model()));
            i += 1;
        }
        let r = FilePath { parts };
        assert(r@ =~= self@.skip(start as int));
        Some(r)
    }

    /// This path with another extension.
    pub fn with_extension(&self, extension: &str) -> (r: FilePath)
        ensures
            r@ == with_extension(self@, extension@),
    {
        match self.file_stem() {
            Some(stem) => {
                let mut r = self.first(self.parts.len() - 1);
                let text = if extension.is_empty() {
                    stem
                } else {
                    crate::text::join3(stem.as_str(), ".", extension)
                };
                let ghost before = r@;
                let ghost last = text@;
                r.parts.push(Part { text });
                assert(r@ =~= before.push(last));
                assert(self@.take(self@.len() - 1) =~= self@.drop_last());
                r
            },
            None => self.dup(),
        }
    }
}

proof fn last_dot_is(name: Seq<char>, dot: int, n: int)
    requires
        -1 <= dot < n <= name.len(),
        dot >= 0 ==> name[dot] == '.',
        forall|i: int| dot < i < n ==> #[trigger] name[i] != '.',
    ensures
        last_dot(name, n) == dot,
    decreases n,
{
    if n - 1 > dot {
        if n == 1 {
            reveal_with_fuel(last_dot, 2);
        } else {
            last_dot_is(name, dot, n - 1);
        }
    }
}

/// The extension of a file name stands behind its last dot, and the stem in front of it.
pub proof fn extensions_follow_the_last_dot(stem: Seq<char>, extension: Seq<char>)
    requires
        stem.len() > 0,
        !extension.contains('.'),
    ensures
        extension_of_name(stem + "."@ + extension) == Some(extension),
        stem_of_name(stem + "."@ + extension) == stem,
{
    reveal_strlit(".");
    let name = stem + "."@ + extension;
    assert forall|i: int| stem.len() < i < name.len() implies #[trigger] name[i] != '.' by {
        assert(name[i] == extension[i - stem.len() - 1]);
    }
    last_dot_is(name, stem.len() as int, name.len() as int);
    assert(name.skip(stem.len() as int + 1) =~= extension);
    assert(name.take(stem.len() as int) =~= stem);
}

/// A file name without a dot behind its first character has no extension.
pub proof fn names_may_have_no_extension(name: Seq<char>)
    requires
        forall|i: int| 0 < i < name.len() ==> #[trigger] name[i] != '.',
    ensures
        extension_of_name(name) is None,
        stem_of_name(name) == name,
{
    if name.len() > 0 {
        last_dot_is(
            name,
            if name[0] == '.' {
                0
            } else {
                -1
            },
            name.len() as int,
        );
    }
}

/// Replacing an extension keeps the directory and the stem.
pub proof fn replaced_extensions_keep_the_stem(
    directory: Seq<Seq<char>>,
    stem: Seq<char>,
    extension: Seq<char>,
    other: Seq<char>,
)
    requires
        stem.len() > 0,
        !extension.contains('.'),
        other.len() > 0,
        is_name(stem + "."@ + extension),
    ensures
        extension_of(directory.push(stem + "."@ + extension)) == Some(extension),
        with_extension(directory.push(stem + "."@ + extension), other) == directory.push(
            stem + "."@ + other,
        ),
{
    extensions_follow_the_last_dot(stem, extension);
    let path = directory.push(stem + "."@ + extension);
    assert(path.last() == stem + "."@ + extension);
    assert(path.drop_last() =~= directory);
}

/// A path joined to a directory: a path from the root stays, and any other goes on below the
/// directory, where a `.` at its front says nothing.
pub proof fn joined_paths_lie_below(base: Seq<Seq<char>>, rest: Seq<Seq<char>>)
    requires
        base.len() > 0,
    ensures
        joined_path(base, seq!["/"@] + rest) == seq!["/"@] + rest,
        joined_path(base, seq!["."@] + rest) == base + rest,
        rest.len() > 0 && rest[0] != "/"@ && rest[0] != "."@ ==> joined_path(base, rest) == base
            + rest,
        rest.len() == 0 ==> joined_path(base, rest) == base,
{
    reveal_strlit("/");
    reveal_strlit(".");
    assert("/"@[0] == '/' && "."@[0] == '.');
    assert((seq!["/"@] + rest)[0] == "/"@);
    assert((seq!["."@] + rest)[0] == "."@);
    assert((seq!["."@] + rest).skip(1) =~= rest);
    assert(joined_path(base, seq!["."@] + rest) =~= base + rest);
    if rest.len() == 0 {
        assert(base + rest =~= base);
    }
}

/// A component that a path keeps as it is: not empty, no `.`, and without a slash.
pub open spec fn is_plain_part(part: Seq<char>) -> bool {
    part.len() > 0 && part != "."@ && !part.contains('/')
}

proof fn plain_parts_are_named(raw: Seq<Seq<char>>, n: int)
    requires
        0 <= n <= raw.len(),
        forall|i: int| 0 <= i < raw.len() ==> is_plain_part(#[trigger] raw[i]),
    ensures
        named(raw, n) == raw.take(n),
    decreases n,
{
    if n > 0 {
        plain_parts_are_named(raw, n - 1);
        assert(raw.take(n) =~= raw.take(n - 1).push(raw[n - 1]));
    } else {
        assert(raw.take(0) =~= Seq::empty());
    }
}

proof fn joined_parts_are_pieces(parts: Seq<Seq<char>>)
    requires
        parts.len() > 0,
        forall|i: int| 0 <= i < parts.len() ==> is_plain_part(#[trigger] parts[i]),
    ensures
        pieces(joined(parts, "/"@), '/') == parts,
{
    reveal_strlit("/");
    assert("/"@ =~= seq!['/']);
    assert forall|i: int| 0 <= i < parts.len() implies !(#[trigger] parts[i]).contains('/') by {
        assert(is_plain_part(parts[i]));
    }
    crate::text::joined_texts_are_pieces(parts, '/');
}

proof fn joined_parts_start_plainly(parts: Seq<Seq<char>>)
    requires
        parts.len() > 0,
        forall|i: int| 0 <= i < parts.len() ==> is_plain_part(#[trigger] parts[i]),
    ensures
        joined(parts, "/"@).len() > 0,
        joined(parts, "/"@)[0] != '/',
    decreases parts.len(),
{
    if parts.len() == 1 {
        assert(is_plain_part(parts[0]));
        assert(parts[0].contains(parts[0][0]));
    } else {
        let front = parts.drop_last();
        assert forall|i: int| 0 <= i < front.len() implies is_plain_part(#[trigger] front[i]) by {
            assert(front[i] == parts[i]);
        }
        joined_parts_start_plainly(front);
    }
}

/// The text of a path reads back as that path, from the root or not.
pub proof fn shown_paths_read_back(parts: Seq<Seq<char>>)
    requires
        forall|i: int| 0 <= i < parts.len() ==> is_plain_part(#[trigger] parts[i]),
    ensures
        components(shown(parts)) == parts,
        components(shown(seq!["/"@] + parts)) == seq!["/"@] + parts,
{
    reveal_strlit("/");
    reveal_strlit(".");
    assert("/"@ =~= seq!['/']);
    let rooted = seq!["/"@] + parts;
    assert(rooted.skip(1) =~= parts);
    let text = joined(parts, "/"@);
    assert(shown(rooted) == "/"@ + text);
    assert("/"@ + text =~= Seq::<char>::empty() + seq!['/'] + text);
    crate::text::whole_is_one_piece(Seq::empty(), '/');
    crate::text::pieces_of_two(Seq::empty(), text, '/');
    let raw = pieces("/"@ + text, '/');
    if parts.len() == 0 {
        reveal_with_fuel(named, 3);
        crate::text::whole_is_one_piece(Seq::empty(), '/');
        assert(named(raw, 2) =~= parts);
        assert(components(shown(rooted)) =~= rooted);
        assert(named(pieces(text, '/'), 1) =~= parts);
        assert(components(shown(parts)) =~= parts);
    } else {
        assert(is_plain_part(parts[0]));
        joined_parts_are_pieces(parts);
        joined_parts_start_plainly(parts);
        plain_parts_are_named(parts, parts.len() as int);
        assert(parts.take(parts.len() as int) =~= parts);
        assert("/"@.contains("/"@[0]));
        assert(shown(parts) == text);
        assert(components(shown(parts)) =~= parts);
        front_piece_is_dropped(parts, parts.len() as int);
        assert(raw =~= seq![Seq::<char>::empty()] + parts);
        assert(components(shown(rooted)) =~= rooted);
    }
}

proof fn front_piece_is_dropped(parts: Seq<Seq<char>>, n: int)
    requires
        0 <= n <= parts.len(),
    ensures
        named(seq![Seq::<char>::empty()] + parts, n + 1) == named(parts, n),
    decreases n,
{
    let raw = seq![Seq::<char>::empty()] + parts;
    if n > 0 {
        front_piece_is_dropped(parts, n - 1);
        assert(raw[n] == parts[n - 1]);
    } else {
        reveal_with_fuel(named, 2);
    }
}

} // verus!
