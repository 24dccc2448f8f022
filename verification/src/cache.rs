//! Where parsed modules are kept between runs.
use sha2::{Digest, Sha256};
use vstd::prelude::*;

use crate::path::{components, extension_of, joined_path, FilePath};
use crate::text::join2;

verus! {

/// The version of the project, which a kept module depends on.
pub const VERSION: &'static str = "0.1.0";

/// The directory for kept modules, from the three places that can name it: the project's own
/// variable, the cache directory of the desktop, the home directory.
pub open spec fn cache_directory(
    own: Option<Seq<Seq<char>>>,
    desktop: Option<Seq<Seq<char>>>,
    home: Option<Seq<Seq<char>>>,
) -> Option<Seq<Seq<char>>> {
    match (own, desktop, home) {
        (Some(path), _, _) => Some(path),
        (None, Some(path), _) => Some(joined_path(path, components("monoripple"@))),
        (None, None, Some(path)) => Some(joined_path(path, components(".cache/monoripple"@))),
        (None, None, None) => None,
    }
}

pub open spec fn path_view(path: Option<FilePath>) -> Option<Seq<Seq<char>>> {
    match path {
        Some(p) => Some(p@),
        None => None,
    }
}

pub fn default_cache_dir(
    own: Option<FilePath>,
    desktop: Option<FilePath>,
    home: Option<FilePath>,
) -> (r: Option<FilePath>)
    ensures
        path_view(r) == cache_directory(path_view(own), path_view(desktop), path_view(home)),
{
    match own {
        Some(path) => Some(path),
        None => match desktop {
            Some(path) => Some(path.join_text("monoripple")),
            None => match home {
                Some(path) => Some(path.join_text(".cache/monoripple")),
                None => None,
            },
        },
    }
}

/// The SHA-256 digest of the UTF-8 form of a text, in hexadecimal digits.
pub uninterp spec fn digest_of(text: Seq<char>) -> Seq<char>;

/// `sha2::Sha256::digest`, written out with its `LowerHex` form.
#[verifier::external_body]
fn digest(text: &str) -> (r: String)
    ensures
        r@ == digest_of(text@),
{
    format!("{:x}", Sha256::digest(text.as_bytes()))
}

/// What a kept module depends on: the form it is kept in, the versions of the project and of the
/// parser, the extension of the file and its text.
pub open spec fn key_text(path: Seq<Seq<char>>, source: Seq<char>) -> Seq<char> {
    "monoripple-parse-v7\0"@ + VERSION@ + "\0oxc-0.120.0\0"@ + (match extension_of(path) {
        Some(extension) => extension,
        None => Seq::empty(),
    }) + "\0"@ + source
}

/// The name under which the module at `path` is kept.
pub fn parse_key(path: &FilePath, source: &str) -> (r: String)
    ensures
        r@ == digest_of(key_text(path@, source@)),
{
    let mut text = join2("monoripple-parse-v7\0", VERSION);
    text.append("\0oxc-0.120.0\0");
    match path.extension() {
        Some(extension) => {
            text.append(extension.as_str());
        },
        None => {},
    }
    text.append("\0");
    text.append(source);
    assert(text@ =~= key_text(path@, source@));
    digest(text.as_str())
}

/// The file in which the module at `path` is kept.
pub fn parse_cache_path(dir: &FilePath, path: &FilePath, source: &str) -> (r: FilePath)
    ensures
        r@ == joined_path(
            joined_path(dir@, components("parse-v7"@)),
            components(digest_of(key_text(path@, source@)) + ".json"@),
        ),
{
    let name = join2(parse_key(path, source).as_str(), ".json");
    dir.join_text("parse-v7").join_text(name.as_str())
}

/// Two files have the same key text only where their extensions and their texts agree.
pub proof fn key_text_tells_files_apart(
    a: Seq<Seq<char>>,
    source_a: Seq<char>,
    b: Seq<Seq<char>>,
    source_b: Seq<char>,
)
    requires
        key_text(a, source_a) == key_text(b, source_b),
        extension_of(a) is Some,
        extension_of(b) is Some,
        !extension_of(a)->0.contains('\0'),
        !extension_of(b)->0.contains('\0'),
    ensures
        extension_of(a) == extension_of(b),
        source_a == source_b,
{
    reveal_strlit("\0");
    let front = "monoripple-parse-v7\0"@ + VERSION@ + "\0oxc-0.120.0\0"@;
    let x = extension_of(a)->0;
    let y = extension_of(b)->0;
    let k = key_text(a, source_a);
    let n = front.len() as int;
    assert(k =~= front + x + "\0"@ + source_a);
    assert(k =~= front + y + "\0"@ + source_b);
    assert(k[n + x.len()] == '\0');
    assert(k[n + y.len()] == '\0');
    if x.len() < y.len() {
        assert(k[n + x.len()] == y[x.len() as int]);
    } else if y.len() < x.len() {
        assert(k[n + y.len()] == x[y.len() as int]);
    }
    assert(x =~= y) by {
        assert forall|i: int| 0 <= i < x.len() implies x[i] == y[i] by {
            assert(k[n + i] == x[i]);
            assert(k[n + i] == y[i]);
        }
    }
    assert(source_a.len() == source_b.len());
    assert(source_a =~= source_b) by {
        assert forall|i: int| 0 <= i < source_a.len() implies source_a[i] == source_b[i] by {
            assert(k[n + x.len() + 1 + i] == source_a[i]);
            assert(k[n + x.len() + 1 + i] == source_b[i]);
        }
    }
}

/// Modules are kept in the directory that is named for them; where none is, below the cache
/// directory of the desktop, in a directory of the project's own, and where that is not known
/// either, below the home directory.
pub proof fn modules_are_kept_below_a_known_place(
    own: Seq<Seq<char>>,
    desktop: Option<Seq<Seq<char>>>,
    home: Option<Seq<Seq<char>>>,
)
    ensures
        cache_directory(Some(own), desktop, home) == Some(own),
        desktop is Some ==> cache_directory(None, desktop, home) == Some(
            desktop->0 + seq!["monoripple"@],
        ),
        desktop is None && home is Some ==> cache_directory(None, desktop, home) == Some(
            home->0 + seq![".cache"@, "monoripple"@],
        ),
        cache_directory(None, None, None) is None,
{
    let (a, b) = (".cache"@, "monoripple"@);
    reveal_strlit(".cache");
    reveal_strlit("monoripple");
    reveal_strlit(".cache/monoripple");
    reveal_strlit("/");
    reveal_strlit(".");
    assert(a.len() == 6 && b.len() == 10 && "."@.len() == 1 && "/"@.len() == 1);
    assert(!a.contains('/') && !b.contains('/'));
    crate::path::names_are_their_components(b);
    assert(components(b)[0] == b);
    assert(".cache/monoripple"@ =~= a + seq!['/'] + b);
    crate::text::pieces_of_two(a, b, '/');
    crate::text::whole_is_one_piece(a, '/');
    crate::text::whole_is_one_piece(b, '/');
    let raw = crate::text::pieces(".cache/monoripple"@, '/');
    assert(raw =~= seq![a, b]);
    reveal_with_fuel(crate::path::named, 3);
    assert(crate::path::named(raw, 2) =~= seq![a, b]);
    assert(".cache/monoripple"@[0] == '.');
    assert(components(".cache/monoripple"@) =~= seq![a, b]);
    assert(components(".cache/monoripple"@)[0] == a);
}

} // verus!
