//! Types that the language server has told already.
use rustc_hash::FxHashMap;
use vstd::prelude::*;

use crate::text::same;

verus! {

pub type Text = Seq<char>;

/// A place in a file: its line and character, counted from zero.
#[derive(Clone, Debug, PartialEq, Eq, Hash)]
pub struct TypePosition {
    pub file_uri: String,
    pub line: u32,
    pub character: u32,
}

pub type PositionModel = (Text, u32, u32);

impl View for TypePosition {
    type V = PositionModel;

    open spec fn view(&self) -> PositionModel {
        (self.file_uri@, self.line, self.character)
    }
}

impl TypePosition {
    pub fn new(file_uri: &str, line: u32, character: u32) -> (r: TypePosition)
        ensures
            r@ == (file_uri@, line, character),
    {
        TypePosition { file_uri: file_uri.to_owned(), line, character }
    }

    fn key(&self) -> (r: (String, u32, u32))
        ensures
            (r.0@, r.1, r.2) == self@,
    {
        (self.file_uri.clone(), self.line, self.character)
    }
}

#[verifier::external_type_specification]
#[verifier::external_body]
pub struct ExFxBuildHasher(rustc_hash::FxBuildHasher);

/// What a table of types holds.
pub uninterp spec fn held_types(table: FxHashMap<(String, u32, u32), String>) -> Map<
    (Seq<char>, u32, u32),
    Seq<char>,
>;

pub open spec fn no_types() -> Map<PositionModel, Text> {
    Map::empty()
}

/// `FxHashMap::default`: an empty table.
#[verifier::external_body]
fn new_table() -> (r: FxHashMap<(String, u32, u32), String>)
    ensures
        held_types(r) == no_types(),
{
    FxHashMap::default()
}

/// `HashMap::get`: the value that is held under a key.
#[verifier::external_body]
fn look_up<'a>(table: &'a FxHashMap<(String, u32, u32), String>, key: &(String, u32, u32)) -> (r: Option<
    &'a String,
>)
    ensures
        match r {
            Some(text) => held_types(*table).dom().contains((key.0@, key.1, key.2)) && held_types(
                *table,
            )[(key.0@, key.1, key.2)] == text@,
            None => !held_types(*table).dom().contains((key.0@, key.1, key.2)),
        },
{
    table.get(key)
}

/// `HashMap::insert`: holds a value under a key, in place of what was there.
#[verifier::external_body]
fn put(table: &mut FxHashMap<(String, u32, u32), String>, key: (String, u32, u32), text: String)
    ensures
        held_types(*final(table)) == held_types(*old(table)).insert((key.0@, key.1, key.2), text@),
{
    table.insert(key, text);
}

/// A map has `n` keys.
pub open spec fn is_size_of(n: nat, types: Map<PositionModel, Text>) -> bool {
    types.dom().finite() && types.dom().len() == n
}

/// `HashMap::len`: the number of keys.
#[verifier::external_body]
fn count(table: &FxHashMap<(String, u32, u32), String>) -> (r: usize)
    ensures
        is_size_of(r as nat, held_types(*table)),
{
    table.len()
}

/// A key of another file.
fn is_elsewhere(key: &(String, u32, u32), file_uri: &str) -> (r: bool)
    ensures
        r == (key.0@ != file_uri@),
{
    !same(key.0.as_str(), file_uri)
}

/// `HashMap::retain`: keeps the keys of which the function says so, with their values. The
/// function is [`is_elsewhere`].
#[verifier::external_body]
fn keep_elsewhere(table: &mut FxHashMap<(String, u32, u32), String>, file_uri: &str)
    ensures
        held_types(*final(table)) == held_types(*old(table)).remove_keys(
            Set::new(|k: (Seq<char>, u32, u32)| k.0 == file_uri@),
        ),
{
    table.retain(|key, _| is_elsewhere(key, file_uri));
}

/// The types at places of files, and how often one that was looked for was there.
pub struct TypeCache {
    entries: FxHashMap<(String, u32, u32), String>,
    hits: usize,
    misses: usize,
}

impl View for TypeCache {
    type V = Map<PositionModel, Text>;

    closed spec fn view(&self) -> Map<PositionModel, Text> {
        held_types(self.entries)
    }
}

impl TypeCache {
    /// How often a type that was looked for was there, and how often not.
    pub closed spec fn tally(self) -> (usize, usize) {
        (self.hits, self.misses)
    }

    pub fn new() -> (r: TypeCache)
        ensures
            r@ == no_types(),
            r.tally() == (0usize, 0usize),
    {
        TypeCache { entries: new_table(), hits: 0, misses: 0 }
    }

    /// Looks for the type at a place, and keeps count.
    pub fn get(&mut self, pos: &TypePosition) -> (r: Option<&String>)
        ensures
            final(self)@ == old(self)@,
            match r {
                Some(text) => old(self)@.dom().contains(pos@) && old(self)@[pos@] == text@
                    && final(self).tally() == (
                    next_count(old(self).tally().0),
                    old(self).tally().1,
                ),
                None => !old(self)@.dom().contains(pos@) && final(self).tally() == (
                    old(self).tally().0,
                    next_count(old(self).tally().1),
                ),
            },
    {
        let key = pos.key();
        let found = look_up(&self.entries, &key).is_some();
        if found {
            self.hits = self.hits.wrapping_add(1);
        } else {
            self.misses = self.misses.wrapping_add(1);
        }
        look_up(&self.entries, &key)
    }

    /// Whether the type at a place is known; this does not count.
    pub fn contains(&self, pos: &TypePosition) -> (r: bool)
        ensures
            r == self@.dom().contains(pos@),
    {
        look_up(&self.entries, &pos.key()).is_some()
    }

    /// Keeps the type at a place.
    pub fn insert(&mut self, pos: TypePosition, type_str: String)
        ensures
            final(self)@ == old(self)@.insert(pos@, type_str@),
            final(self).tally() == old(self).tally(),
    {
        put(&mut self.entries, pos.key(), type_str);
    }

    pub fn stats(&self) -> (r: (usize, usize))
        ensures
            r == self.tally(),
    {
        (self.hits, self.misses)
    }

    pub fn len(&self) -> (r: usize)
        ensures
            self@.dom().finite(),
            r == self@.dom().len(),
    {
        count(&self.entries)
    }

    pub fn is_empty(&self) -> (r: bool)
        ensures
            r == (self@ == no_types()),
    {
        let n = count(&self.entries);
        proof {
            let d = self@.dom();
            if n == 0 {
                assert(d =~= Set::empty()) by {
                    if exists|k: PositionModel| d.contains(k) {
                        let k = choose|k: PositionModel| d.contains(k);
                        assert(d.remove(k).len() < d.len());
                    }
                }
                assert(self@ =~= Map::empty());
            } else {
                assert(Set::<PositionModel>::empty().len() == 0);
                assert(no_types().dom() =~= Set::empty());
            }
        }
        n == 0
    }

    /// Forgets everything.
    pub fn clear(&mut self)
        ensures
            final(self)@ == no_types(),
            final(self).tally() == (0usize, 0usize),
    {
        self.entries = new_table();
        self.hits = 0;
        self.misses = 0;
    }

    /// Forgets the types in one file.
    pub fn clear_for_file(&mut self, file_uri: &str)
        ensures
            final(self)@ == without_file(old(self)@, file_uri@),
            final(self).tally() == old(self).tally(),
    {
        let ghost before = self@;
        keep_elsewhere(&mut self.entries, file_uri);
        assert(self@ =~= without_file(before, file_uri@));
    }
}

/// The next number; the count starts again behind the largest.
pub open spec fn next_count(n: usize) -> usize {
    if n == usize::MAX {
        0
    } else {
        (n + 1) as usize
    }
}

/// The types outside one file.
pub open spec fn without_file(types: Map<PositionModel, Text>, file_uri: Text) -> Map<
    PositionModel,
    Text,
> {
    types.restrict(Set::new(|k: PositionModel| types.dom().contains(k) && k.0 != file_uri))
}

/// A type that was kept is found again, until its file is forgotten.
pub proof fn kept_types_are_found(
    types: Map<PositionModel, Text>,
    at: PositionModel,
    text: Text,
    file_uri: Text,
)
    ensures
        types.insert(at, text).dom().contains(at),
        types.insert(at, text)[at] == text,
        without_file(types.insert(at, text), file_uri).dom().contains(at) == (at.0 != file_uri),
        at.0 != file_uri ==> without_file(types.insert(at, text), file_uri)[at] == text,
{
}

} // verus!
