//! What the TypeScript compiler proves about registry reads.
pub mod candidates;
pub mod laws;
pub mod places;
pub mod plan;

use vstd::prelude::*;

use crate::graph::resolve::{normal, normalize_path, DiskFacts};
use crate::order::{Key, Rank};
use crate::path::{shown, FilePath};
use crate::text::{join3, starts_with};
use crate::workspace::owner::Path;

verus! {

/// A call that reads a registry: the symbol that makes it, the registry, and the keys it can
/// read where the compiler knows them.
pub struct TypeScriptFact {
    pub file: FilePath,
    pub consumer: String,
    pub registry_file: FilePath,
    pub registry_symbol: String,
    pub keys: Option<Vec<String>>,
    pub line: usize,
    pub column: usize,
}

/// A registry that is only read through an index.
pub struct TypeScriptRegistry {
    pub file: FilePath,
    pub symbol: String,
}

pub struct TypeScriptFacts {
    pub indexed_registries: Vec<TypeScriptRegistry>,
    pub facts: Vec<TypeScriptFact>,
}

/// The address of a file.
pub uninterp spec fn file_url(path: Seq<char>) -> Option<Seq<char>>;

/// `url::Url::from_file_path`, whose result is kept as text.
#[verifier::external_body]
fn write_url(path: &str) -> (r: Option<String>)
    ensures
        r.model() == file_url(path@),
{
    url::Url::from_file_path(path).map(|url| url.to_string()).ok()
}

/// A file that has no address, in words.
pub open spec fn no_address(path: Path) -> Seq<char> {
    "cannot convert "@ + shown(path) + " to a file URI"@
}

/// The address of a file, in its canonical form.
pub fn file_uri(disk: &DiskFacts, path: &FilePath) -> (r: Result<String, String>)
    ensures
        match r {
            Ok(uri) => file_url(shown(normal(*disk, path@))) == Some(uri@),
            Err(fault) => file_url(shown(normal(*disk, path@))) is None && fault@ == no_address(
                normal(*disk, path@),
            ),
        },
{
    let text = normalize_path(disk, path).display();
    match write_url(text.as_str()) {
        Some(uri) => Ok(uri),
        None => Err(join3("cannot convert ", text.as_str(), " to a file URI")),
    }
}

/// A directory of the package cache that holds the compiler.
pub open spec fn is_preview(name: Seq<char>) -> bool {
    "@typescript/native-preview-"@.is_prefix_of(name)
}

pub fn is_preview_name(name: &str) -> (r: bool)
    ensures
        r == is_preview(name@),
{
    starts_with(name, "@typescript/native-preview-")
}

/// No path in a list comes behind this one.
pub open spec fn is_last(list: Seq<FilePath>, path: Path) -> bool {
    &&& exists|i: int| 0 <= i < list.len() && (#[trigger] list[i])@ == path
    &&& forall|i: int| 0 <= i < list.len() ==> !FilePath::precedes(path, (#[trigger] list[i])@)
}

/// Picks the compiler: the one that the environment names, the one on the search path, or the last
/// of the package cache.
pub fn choose_tsgo(named: Option<FilePath>, found: Option<FilePath>, cached: &Vec<FilePath>) -> (r: Option<
    FilePath,
>)
    ensures
        match (named, found) {
            (Some(path), _) => r.model() == Some(path@),
            (None, Some(path)) => r.model() == Some(path@),
            (None, None) => match r {
                Some(path) => is_last(cached@, path@),
                None => cached@.len() == 0,
            },
        },
{
    match named {
        Some(path) => {
            return Some(path);
        },
        None => {},
    }
    match found {
        Some(path) => {
            return Some(path);
        },
        None => {},
    }
    if cached.len() == 0 {
        return None;
    }
    let mut best: usize = 0;
    let mut i: usize = 1;
    proof {
        FilePath::order_laws(cached@[0]@, cached@[0]@, cached@[0]@);
    }
    while i < cached.len()
        invariant
            best < i <= cached.len(),
            forall|k: int|
                0 <= k < i ==> !FilePath::precedes(cached@[best as int]@, (#[trigger] cached@[k])@),
        decreases cached.len() - i,
    {
        let ghost b = cached@[best as int]@;
        let ghost c = cached@[i as int]@;
        let rank = cached[i].rank(&cached[best]);
        proof {
            FilePath::order_laws(b, c, b);
            FilePath::order_laws(c, b, c);
        }
        match rank {
            Rank::After => {
                proof {
                    assert forall|k: int| 0 <= k < i + 1 implies !FilePath::precedes(
                        c,
                        (#[trigger] cached@[k])@,
                    ) by {
                        FilePath::order_laws(b, c, cached@[k]@);
                    }
                }
                best = i;
            },
            _ => {},
        }
        i += 1;
    }
    let r = cached[best].dup();
    assert(cached@[best as int]@ == r@);
    Some(r)
}

/// The packages of the compiler's workspace are to be linked into another one: it is another, it
/// has none, and there are some.
pub fn needs_link(
    source_root: &FilePath,
    compiler_root: &FilePath,
    has_modules: bool,
    has_compiler_modules: bool,
) -> (r: bool)
    ensures
        r == (source_root@ != compiler_root@ && !has_modules && has_compiler_modules),
{
    !source_root.same_as(compiler_root) && !has_modules && has_compiler_modules
}

} // verus!
