//! What imports and registry reads lead to.
use vstd::prelude::*;

use crate::collections::{union_over, union_over_all, union_over_next, union_over_none, KeySet};
use crate::graph::exports::{bindings_mention, import_mentions, mentions, Slot};
use crate::graph::node::{Node, NodeModel};
use crate::graph::resolve::{Scope, World};
use crate::order::Key;
use crate::parser::{entry_symbol, registry_entry_symbol, ImportBinding, ImportedName, MODULE_INIT};
use crate::path::FilePath;

verus! {

impl World {
    /// The symbols behind the export `name` of the module at `path`.
    pub open spec fn exports(self, types: bool, path: Seq<Seq<char>>, name: Seq<char>) -> Set<
        NodeModel,
    > {
        self.exports_of(types, path, name, Set::empty(), self.depth()).0
    }

    /// The symbols behind all exports of the module at `path`.
    pub open spec fn everything(self, types: bool, path: Seq<Seq<char>>) -> Set<NodeModel> {
        self.all_exports(types, path, Set::empty(), Set::empty(), self.depth()).0
    }

    /// The symbols behind the first `n` names in one search, which visits no slot twice.
    pub open spec fn members(
        self,
        types: bool,
        path: Seq<Seq<char>>,
        names: Seq<Seq<char>>,
        n: nat,
    ) -> (Set<NodeModel>, Set<Slot>)
        decreases n,
    {
        if n == 0 {
            (Set::empty(), Set::empty())
        } else {
            let (found, seen) = self.members(types, path, names, (n - 1) as nat);
            let (more, after) = self.exports_of(types, path, names[n - 1], seen, self.depth());
            (found.union(more), after)
        }
    }

    /// What an import takes from the module at `path`.
    pub open spec fn taken(self, types: bool, path: Seq<Seq<char>>, imported: ImportedName) -> Set<
        NodeModel,
    > {
        match imported {
            ImportedName::Named(name) => self.exports(types, path, name@),
            ImportedName::Namespace { members: Some(members) } => self.members(
                types,
                path,
                members.list(),
                members.list().len(),
            ).0,
            ImportedName::Namespace { members: None } => self.everything(types, path),
        }
    }

    /// What a local name bound by an import depends on. A value import also depends on the
    /// initialisation of the module that it loads.
    pub open spec fn import_targets(
        self,
        types: bool,
        importer: Seq<Seq<char>>,
        binding: ImportBinding,
    ) -> Set<NodeModel> {
        match self.resolve(importer, binding.source@) {
            Some(path) => if types {
                self.taken(types, path, binding.imported)
            } else {
                self.taken(types, path, binding.imported).insert((path, MODULE_INIT@))
            },
            None => Set::empty(),
        }
    }

    /// The registries that a symbol of a module stands for: its own registry of that name, or
    /// what an import of a single name leads to.
    pub open spec fn registry_nodes(self, path: Seq<Seq<char>>, dependency: Seq<char>) -> Option<
        Set<NodeModel>,
    > {
        if !self.modules.dom().contains(path) {
            None
        } else if self.modules[path].registries@.dom().contains(dependency) {
            Some(set![(path, dependency)])
        } else if !self.modules[path].imports@.dom().contains(dependency) {
            None
        } else {
            let import = self.modules[path].imports@[dependency];
            match import.imported {
                ImportedName::Named(name) => match self.resolve(path, import.source@) {
                    Some(next) => {
                        let found = self.exports(false, next, name@);
                        if found == Set::<NodeModel>::empty() {
                            None
                        } else {
                            Some(found)
                        }
                    },
                    None => None,
                },
                ImportedName::Namespace { members: _ } => None,
            }
        }
    }

    pub open spec fn has_registry(self, node: NodeModel) -> bool {
        self.modules.dom().contains(node.0) && self.modules[node.0].registries@.dom().contains(
            node.1,
        )
    }

    pub open spec fn has_entry(self, node: NodeModel, key: Seq<char>) -> bool {
        self.has_registry(node)
            && self.modules[node.0].registries@[node.1].entries@.dom().contains(key)
    }

    /// The registry entries that reading `keys` from `dependency` depends on, where each of the
    /// registries behind it has all of them.
    pub open spec fn keyed(
        self,
        path: Seq<Seq<char>>,
        dependency: Seq<char>,
        keys: Set<Seq<char>>,
    ) -> Option<Set<NodeModel>> {
        match self.registry_nodes(path, dependency) {
            Some(registries) => if keys != Set::<Seq<char>>::empty() && forall|r: NodeModel, k: Seq<char>|
                registries.contains(r) && keys.contains(k) ==> #[trigger] self.has_entry(r, k) {
                Some(entry_nodes(registries, keys))
            } else {
                None
            },
            None => None,
        }
    }
}

/// The entries `keys` of each of `registries`.
pub open spec fn entry_nodes(registries: Set<NodeModel>, keys: Set<Seq<char>>) -> Set<NodeModel> {
    Set::new(
        |n: NodeModel|
            exists|r: NodeModel, k: Seq<char>|
                registries.contains(r) && keys.contains(k) && n == (
                    r.0,
                    #[trigger] entry_symbol(r.1, k),
                ),
    )
}

/// The node of each entry of one registry.
spec fn entry_of(r: NodeModel) -> spec_fn(Seq<char>) -> Set<NodeModel> {
    |k: Seq<char>| set![(r.0, entry_symbol(r.1, k))]
}

/// Every name that an import mentions is known.
pub open spec fn names_known(w: World, imported: ImportedName) -> bool {
    forall|n: Seq<char>| import_mentions(imported, n) ==> #[trigger] w.knows(n)
}

/// The names in the imports of a module are known.
pub proof fn own_imports_are_known(w: World, path: Seq<Seq<char>>, types: bool, local: Seq<char>)
    requires
        w.modules.dom().contains(path),
        if types {
            w.modules[path].type_imports@.dom().contains(local)
        } else {
            w.modules[path].imports@.dom().contains(local)
        },
    ensures
        types ==> names_known(w, w.modules[path].type_imports@[local].imported),
        !types ==> names_known(w, w.modules[path].imports@[local].imported),
{
    let m = w.modules[path];
    let imports = if types {
        m.type_imports@
    } else {
        m.imports@
    };
    assert forall|n: Seq<char>| import_mentions(imports[local].imported, n) implies #[trigger] w.knows(
        n,
    ) by {
        assert(bindings_mention(imports, n));
        assert(mentions(w.modules[path], n));
    }
}

impl<'a> Scope<'a> {
    pub(crate) fn exports(&self, types: bool, path: &FilePath, name: &String) -> (r: KeySet<Node>)
        requires
            self@.knows(name@),
        ensures
            r@ == self@.exports(types, path@, name@),
    {
        let _ = self.modules.len();
        let mut visited: KeySet<(FilePath, String)> = KeySet::new();
        assert(self@.slots().difference(visited@) =~= self@.slots());
        self.resolve_export(types, path, name, &mut visited, Ghost(self@.depth()))
    }

    pub fn everything(&self, types: bool, path: &FilePath) -> (r: KeySet<Node>)
        ensures
            r@ == self@.everything(types, path@),
    {
        let _ = self.modules.len();
        let mut visited: KeySet<(FilePath, String)> = KeySet::new();
        let trail: KeySet<FilePath> = KeySet::new();
        assert(self@.slots().difference(visited@) =~= self@.slots());
        self.all_exports(types, path, &mut visited, &trail, Ghost(self@.depth()))
    }

    fn members(&self, types: bool, path: &FilePath, names: &KeySet<String>) -> (r: KeySet<Node>)
        requires
            forall|n: Seq<char>| names@.contains(n) ==> #[trigger] self@.knows(n),
        ensures
            r@ == self@.members(types, path@, names.list(), names.list().len()).0,
    {
        let _ = self.modules.len();
        let mut visited: KeySet<(FilePath, String)> = KeySet::new();
        let mut found: KeySet<Node> = KeySet::new();
        let count = names.len();
        let mut i: usize = 0;
        while i < count
            invariant
                i <= count,
                count == names.list().len(),
                self@.modules.dom().finite(),
                forall|n: Seq<char>| names@.contains(n) ==> #[trigger] self@.knows(n),
                (found@, visited@) == self@.members(types, path@, names.list(), i as nat),
            decreases count - i,
        {
            let name = names.at(i);
            proof {
                self@.slots_are_finite();
                vstd::set_lib::lemma_len_subset(
                    self@.slots().difference(visited@),
                    self@.slots(),
                );
            }
            let more = self.resolve_export(types, path, name, &mut visited, Ghost(self@.depth()));
            found.extend(&more);
            i += 1;
        }
        found
    }

    pub(crate) fn taken(&self, types: bool, path: &FilePath, imported: &ImportedName) -> (r: KeySet<
        Node,
    >)
        requires
            names_known(self@, *imported),
        ensures
            r@ == self@.taken(types, path@, *imported),
    {
        match imported {
            ImportedName::Named(name) => {
                assert(import_mentions(*imported, name@));
                self.exports(types, path, name)
            },
            ImportedName::Namespace { members: Some(members) } => {
                proof {
                    assert forall|n: Seq<char>| members@.contains(n) implies #[trigger] self@.knows(n) by {
                        assert(import_mentions(*imported, n));
                    }
                }
                self.members(types, path, members)
            },
            ImportedName::Namespace { members: None } => self.everything(types, path),
        }
    }

    pub(crate) fn resolve_registry_nodes(&self, path: &FilePath, dependency: &String) -> (r: Option<
        KeySet<Node>,
    >)
        ensures
            match r {
                Some(nodes) => self@.registry_nodes(path@, dependency@) == Some(nodes@),
                None => self@.registry_nodes(path@, dependency@) is None,
            },
            r is Some ==> r->0@ != Set::<NodeModel>::empty(),
    {
        let m = match self.modules.get(path) {
            Some(m) => m,
            None => {
                return None;
            },
        };
        if m.registries.contains_key(dependency) {
            let mut out: KeySet<Node> = KeySet::new();
            out.insert(Node { file: path.dup(), symbol: dependency.clone() });
            assert(out@ =~= set![(path@, dependency@)]);
            assert(out@.contains((path@, dependency@)));
            return Some(out);
        }
        let import = match m.imports.get(dependency) {
            Some(import) => import,
            None => {
                return None;
            },
        };
        match &import.imported {
            ImportedName::Named(name) => match self.resolve(path, import.source.as_str()) {
                Some(next) => {
                    proof {
                        own_imports_are_known(self@, path@, false, dependency@);
                        assert(import_mentions(import.imported, name@));
                    }
                    let found = self.exports(false, &next, name);
                    if found.len() == 0 {
                        None
                    } else {
                        Some(found)
                    }
                },
                None => None,
            },
            ImportedName::Namespace { members: _ } => None,
        }
    }

    pub(crate) fn resolve_keyed_dependency(
        &self,
        path: &FilePath,
        dependency: &String,
        keys: &KeySet<String>,
    ) -> (r: Option<KeySet<Node>>)
        ensures
            match r {
                Some(nodes) => self@.keyed(path@, dependency@, keys@) == Some(nodes@),
                None => self@.keyed(path@, dependency@, keys@) is None,
            },
    {
        let count = keys.len();
        if count == 0 {
            return None;
        }
        let registries = match self.resolve_registry_nodes(path, dependency) {
            Some(registries) => registries,
            None => {
                return None;
            },
        };
        let total = registries.len();
        let mut entries: KeySet<Node> = KeySet::new();
        let ghost w = self@;
        let ghost rs = registries.list();
        let ghost ks = keys.list();
        let ghost f = |r: NodeModel| union_over(ks, entry_of(r));
        proof {
            union_over_none(rs.take(0), f);
        }
        let mut i: usize = 0;
        while i < total
            invariant
                i <= total,
                w == self@,
                rs == registries.list(),
                ks == keys.list(),
                f == (|r: NodeModel| union_over(ks, entry_of(r))),
                total == rs.len(),
                count == ks.len(),
                count > 0,
                keys@ != Set::<Seq<char>>::empty(),
                w.registry_nodes(path@, dependency@) == Some(registries@),
                forall|x: int, y: int|
                    0 <= x < i && 0 <= y < count ==> #[trigger] w.has_entry(rs[x], ks[y]),
                entries@ == union_over(rs.take(i as int), f),
            decreases total - i,
        {
            let node = registries.at(i);
            let ghost before = entries@;
            let ghost g = entry_of(node@);
            proof {
                union_over_none(ks.take(0), g);
                assert(before.union(Set::empty()) =~= before);
            }
            let mut j: usize = 0;
            while j < count
                invariant
                    j <= count,
                    i < total,
                    w == self@,
                    rs == registries.list(),
                    ks == keys.list(),
                    total == rs.len(),
                    count == ks.len(),
                    w.registry_nodes(path@, dependency@) == Some(registries@),
                    node@ == rs[i as int],
                    g == entry_of(node@),
                    forall|y: int| 0 <= y < j ==> #[trigger] w.has_entry(rs[i as int], ks[y]),
                    entries@ == before.union(union_over(ks.take(j as int), g)),
                decreases count - j,
            {
                let key = keys.at(j);
                if !self.has_entry(node, key) {
                    proof {
                        assert(registries@.contains(rs[i as int]));
                        assert(keys@.contains(ks[j as int]));
                        assert(!w.has_entry(rs[i as int], ks[j as int]));
                    }
                    return None;
                }
                let ghost inner = entries@;
                let symbol = registry_entry_symbol(node.symbol.as_str(), key.as_str());
                let item = Node { file: node.file.dup(), symbol };
                let ghost added = item.model();
                entries.insert(item);
                proof {
                    union_over_next(ks, g, j as int);
                    assert(g(ks[j as int]) =~= set![added]);
                    assert(entries@ =~= before.union(union_over(ks.take(j + 1), g)));
                }
                j += 1;
            }
            proof {
                union_over_all(ks, g, count as int);
                union_over_next(rs, f, i as int);
            }
            i += 1;
        }
        proof {
            union_over_all(rs, f, total as int);
            assert forall|r: NodeModel, k: Seq<char>|
                registries@.contains(r) && keys@.contains(k) implies #[trigger] w.has_entry(r, k) by {
                let x = choose|x: int| 0 <= x < rs.len() && rs[x] == r;
                let y = choose|y: int| 0 <= y < ks.len() && ks[y] == k;
                assert(w.has_entry(rs[x], ks[y]));
            }
            assert forall|n: NodeModel|
                entries@.contains(n) == entry_nodes(registries@, keys@).contains(n) by {
                if entries@.contains(n) {
                    let x = choose|x: int| 0 <= x < rs.len() && (#[trigger] f(rs[x])).contains(n);
                    let g = entry_of(rs[x]);
                    let y = choose|y: int| 0 <= y < ks.len() && (#[trigger] g(ks[y])).contains(n);
                    assert(registries@.contains(rs[x]));
                    assert(keys@.contains(ks[y]));
                    assert(n == (rs[x].0, entry_symbol(rs[x].1, ks[y])));
                }
                if entry_nodes(registries@, keys@).contains(n) {
                    let (r, k) = choose|r: NodeModel, k: Seq<char>|
                        registries@.contains(r) && keys@.contains(k) && n == (
                            r.0,
                            #[trigger] entry_symbol(r.1, k),
                        );
                    let x = choose|x: int| 0 <= x < rs.len() && rs[x] == r;
                    let y = choose|y: int| 0 <= y < ks.len() && ks[y] == k;
                    let g = entry_of(rs[x]);
                    assert(g(ks[y]).contains(n));
                    assert(f(rs[x]).contains(n));
                }
            }
            assert(entries@ =~= entry_nodes(registries@, keys@));
        }
        Some(entries)
    }

    pub(crate) fn has_entry(&self, node: &Node, key: &String) -> (r: bool)
        ensures
            r == self@.has_entry(node@, key@),
    {
        match self.modules.get(&node.file) {
            Some(m) => match m.registries.get(&node.symbol) {
                Some(registry) => registry.entries.contains_key(key),
                None => false,
            },
            None => false,
        }
    }
}

} // verus!
