//! What one JavaScript or TypeScript module declares, imports and exports.
pub mod assemble;
pub mod laws;
pub mod linkage;
pub mod load_laws;
pub mod model;
pub mod registries;
pub mod registry_laws;
pub mod source;
pub mod start;
pub mod symbols;
pub mod syntax;
pub mod text_laws;
pub mod tree;

use vstd::prelude::*;

pub use crate::parser::assemble::{is_source_file, is_test_file, parse_module, ParseError};

use crate::collections::{KeyMap, KeySet};
use crate::text::{debug_quoted, debug_text};

verus! {

/// The symbol that stands for what a module runs when it is loaded.
pub const MODULE_INIT: &'static str = "<module>";

/// A place in a source text; lines and columns count from one.
#[derive(Clone, Copy, Debug, PartialEq, Eq, PartialOrd, Ord, Structural)]
pub struct SourceLocation {
    pub line: usize,
    pub column: usize,
}

/// A top-level symbol with the text it was declared by and the symbols that text mentions.
pub struct SymbolInfo {
    pub fingerprint: String,
    pub dependencies: KeySet<String>,
    pub dependency_locations: KeyMap<String, SourceLocation>,
    pub keyed_dependencies: KeyMap<String, KeySet<String>>,
    pub type_dependencies: KeySet<String>,
    pub type_dependency_locations: KeyMap<String, SourceLocation>,
    pub runtime: bool,
}

/// One entry of a registry: a constant collection whose entries are tracked one by one.
pub struct RegistryEntryInfo {
    pub fingerprint: String,
    pub dependency: Option<String>,
    pub location: SourceLocation,
}

pub struct RegistryInfo {
    pub full_fingerprint: String,
    pub entry_order: Vec<String>,
    pub entries: KeyMap<String, RegistryEntryInfo>,
}

/// What an import takes from a module: one export, or the namespace, of which `members` lists
/// the properties that are read where only such reads occur.
pub enum ImportedName {
    Named(String),
    Namespace { members: Option<KeySet<String>> },
}

pub struct ImportBinding {
    pub source: String,
    pub imported: ImportedName,
    pub location: SourceLocation,
}

pub struct ReExport {
    pub exported: String,
    pub source: String,
    pub imported: ImportedName,
}

/// A module that is loaded by a call at run time, and the symbols that make the call.
pub struct RuntimeLoad {
    pub source: String,
    pub consumers: KeySet<String>,
    pub location: SourceLocation,
}

pub struct ParsedModule {
    pub symbols: KeyMap<String, SymbolInfo>,
    pub registries: KeyMap<String, RegistryInfo>,
    pub indexed_registry_dependencies: KeySet<String>,
    pub imports: KeyMap<String, ImportBinding>,
    pub type_imports: KeyMap<String, ImportBinding>,
    pub local_exports: KeyMap<String, String>,
    pub type_local_exports: KeyMap<String, String>,
    pub re_exports: Vec<ReExport>,
    pub type_re_exports: Vec<ReExport>,
    pub star_exports: Vec<String>,
    pub type_star_exports: Vec<String>,
    pub module_requests: KeySet<String>,
    pub runtime_loads: Vec<RuntimeLoad>,
    pub unresolved_dynamic_imports: Vec<String>,
}

/// The symbol of one entry of a registry.
pub open spec fn entry_symbol(registry: Seq<char>, key: Seq<char>) -> Seq<char> {
    registry + "["@ + debug_quoted(key) + "]"@
}

/// The symbol of an entry. The names of registries hold no bracket: then no registry has such a
/// symbol, and no other entry has the same.
pub fn registry_entry_symbol(registry: &str, key: &str) -> (r: String)
    ensures
        r@ == entry_symbol(registry@, key@),
        r@.contains('['),
        !registry@.contains('[') ==> forall|other: Seq<char>, other_key: Seq<char>|
            !other.contains('[') && #[trigger] entry_symbol(other, other_key) == r@ ==> other
                == registry@ && other_key == key@,
{
    let quoted = debug_text(key);
    let mut out = registry.to_owned();
    out.append("[");
    out.append(quoted.as_str());
    out.append("]");
    proof {
        reveal_strlit("[");
        assert(out@[registry@.len() as int] == '[');
        if !registry@.contains('[') {
            assert forall|other: Seq<char>, other_key: Seq<char>|
                !other.contains('[') && #[trigger] entry_symbol(other, other_key) == out@ implies other
                == registry@ && other_key == key@ by {
                entries_have_their_own_symbols(registry@, key@, other, other_key);
            }
        }
    }
    out
}

/// Entries with the same symbol belong to the same registry and have keys that are quoted the
/// same, and no entry has the symbol of a registry. The name of a registry holds no bracket.
pub proof fn entries_have_their_own_symbols(
    registry: Seq<char>,
    key: Seq<char>,
    other: Seq<char>,
    other_key: Seq<char>,
)
    requires
        !registry.contains('['),
        !other.contains('['),
    ensures
        entry_symbol(registry, key) == entry_symbol(other, other_key) ==> registry == other
            && debug_quoted(key) == debug_quoted(other_key),
        entry_symbol(registry, key) != other,
{
    reveal_strlit("[");
    reveal_strlit("]");
    let a = entry_symbol(registry, key);
    let b = entry_symbol(other, other_key);
    let n = registry.len() as int;
    let m = other.len() as int;
    assert(a[n] == '[');
    assert(b[m] == '[');
    if a == other {
        assert(other.contains(other[n]));
    }
    if a == b {
        if n < m {
            assert(b[n] == other[n]);
            assert(other.contains(other[n]));
        } else if m < n {
            assert(a[m] == registry[m]);
            assert(registry.contains(registry[m]));
        }
        assert forall|i: int| 0 <= i < n implies registry[i] == other[i] by {
            assert(a[i] == registry[i] && b[i] == other[i]);
        }
        assert(registry =~= other);
        let x = debug_quoted(key);
        let y = debug_quoted(other_key);
        assert(a.len() == n + 1 + x.len() + 1);
        assert(b.len() == n + 1 + y.len() + 1);
        assert forall|i: int| 0 <= i < x.len() implies x[i] == y[i] by {
            assert(a[n + 1 + i] == x[i] && b[n + 1 + i] == y[i]);
        }
        assert(x =~= y);
    }
}

} // verus!
