//! Following exports through the modules that pass them on.
use vstd::prelude::*;

use crate::collections::{difference_shrinks, KeySet};
use crate::graph::node::{Node, NodeModel};
use crate::graph::resolve::{Scope, World};
use crate::order::Key;
use crate::parser::{ImportBinding, ImportedName, ParsedModule, ReExport};
use crate::path::FilePath;
use crate::text::same;

verus! {

/// One export of one module: the module's path and the name of the export.
pub type Slot = (Seq<Seq<char>>, Seq<char>);

/// The re-exports of a module, for types or for values.
pub open spec fn re_exports_of(m: ParsedModule, types: bool) -> Seq<ReExport> {
    if types {
        m.type_re_exports@
    } else {
        m.re_exports@
    }
}

/// The modules that a module passes on whole, for types or for values.
pub open spec fn stars_of(m: ParsedModule, types: bool) -> Seq<String> {
    if types {
        m.type_star_exports@
    } else {
        m.star_exports@
    }
}

/// The exports that a module declares itself, with the symbols behind them.
pub open spec fn locals_of(m: ParsedModule, types: bool) -> Map<Seq<char>, String> {
    if types {
        m.type_local_exports@
    } else {
        m.local_exports@
    }
}

/// The names of those exports in ascending order.
pub open spec fn local_names(m: ParsedModule, types: bool) -> Seq<Seq<char>> {
    if types {
        m.type_local_exports.keys()
    } else {
        m.local_exports.keys()
    }
}

pub open spec fn import_mentions(imported: ImportedName, name: Seq<char>) -> bool {
    match imported {
        ImportedName::Named(n) => n@ == name,
        ImportedName::Namespace { members: Some(members) } => members@.contains(name),
        ImportedName::Namespace { members: None } => false,
    }
}

pub open spec fn re_export_mentions(list: Seq<ReExport>, name: Seq<char>) -> bool {
    exists|i: int|
        0 <= i < list.len() && ((#[trigger] list[i]).exported@ == name || import_mentions(
            list[i].imported,
            name,
        ))
}

pub open spec fn bindings_mention(imports: Map<Seq<char>, ImportBinding>, name: Seq<char>) -> bool {
    exists|k: Seq<char>|
        imports.dom().contains(k) && #[trigger] import_mentions(imports[k].imported, name)
}

/// A module exports, re-exports or imports something under `name`.
pub open spec fn mentions(m: ParsedModule, name: Seq<char>) -> bool {
    ||| m.local_exports@.dom().contains(name)
    ||| m.type_local_exports@.dom().contains(name)
    ||| re_export_mentions(m.re_exports@, name)
    ||| re_export_mentions(m.type_re_exports@, name)
    ||| bindings_mention(m.imports@, name)
    ||| bindings_mention(m.type_imports@, name)
}

impl World {
    /// Some module mentions `name`.
    pub open spec fn knows(self, name: Seq<char>) -> bool {
        exists|p: Seq<Seq<char>>|
            self.modules.dom().contains(p) && #[trigger] mentions(self.modules[p], name)
    }

    /// The exports that a search can come to.
    pub open spec fn slots(self) -> Set<Slot> {
        Set::new(|k: Slot| self.modules.dom().contains(k.0) && self.knows(k.1))
    }

    /// How deep a search through the exports can get.
    pub open spec fn depth(self) -> nat {
        self.slots().len() + 1
    }

    /// The symbol that a module itself exports under `name`; a value must exist at run time.
    pub open spec fn own_export(
        self,
        types: bool,
        path: Seq<Seq<char>>,
        name: Seq<char>,
    ) -> Set<NodeModel> {
        let m = self.modules[path];
        let locals = locals_of(m, types);
        if locals.dom().contains(name) && m.symbols@.dom().contains(locals[name]@) && (types
            || m.symbols@[locals[name]@].runtime) {
            set![(path, locals[name]@)]
        } else {
            Set::empty()
        }
    }

    /// The symbols behind the export `name` of the module at `path`, and the slots visited on
    /// the way: its own symbol and what its re-exports of that name lead to; where that is
    /// nothing, what the modules that it passes on whole lead to. A slot that was visited before
    /// leads to nothing.
    pub open spec fn exports_of(
        self,
        types: bool,
        path: Seq<Seq<char>>,
        name: Seq<char>,
        visited: Set<Slot>,
        depth: nat,
    ) -> (Set<NodeModel>, Set<Slot>)
        decreases depth, 0nat, 0nat,
        when self.modules.dom().finite()
    {
        if depth == 0 || visited.contains((path, name)) {
            (Set::empty(), visited)
        } else if !self.modules.dom().contains(path) {
            (Set::empty(), visited.insert((path, name)))
        } else {
            let n = re_exports_of(self.modules[path], types).len();
            let (found, seen) = self.through_re_exports(
                types,
                path,
                name,
                n,
                visited.insert((path, name)),
                (depth - 1) as nat,
            );
            if found == Set::<NodeModel>::empty() && name != "default"@ {
                let k = stars_of(self.modules[path], types).len();
                self.through_stars(types, path, name, k, seen, (depth - 1) as nat)
            } else {
                (found, seen)
            }
        }
    }

    /// The module's own symbol and what the first `n` re-exports lead to.
    pub open spec fn through_re_exports(
        self,
        types: bool,
        path: Seq<Seq<char>>,
        name: Seq<char>,
        n: nat,
        visited: Set<Slot>,
        depth: nat,
    ) -> (Set<NodeModel>, Set<Slot>)
        decreases depth, 2 * self.modules.dom().len() + 4, n,
        when self.modules.dom().finite()
    {
        if n == 0 {
            (self.own_export(types, path, name), visited)
        } else {
            let (found, seen) = self.through_re_exports(
                types,
                path,
                name,
                (n - 1) as nat,
                visited,
                depth,
            );
            let entry = re_exports_of(self.modules[path], types)[n - 1];
            match self.resolve(path, entry.source@) {
                Some(next) if entry.exported@ == name => {
                    proof {
                        assert(self.modules.dom().difference(Set::empty()) =~= self.modules.dom());
                    }
                    let (more, after) = match entry.imported {
                        ImportedName::Named(inner) => self.exports_of(
                            types,
                            next,
                            inner@,
                            seen,
                            depth,
                        ),
                        ImportedName::Namespace { members: _ } => self.all_exports(
                            types,
                            next,
                            seen,
                            Set::empty(),
                            depth,
                        ),
                    };
                    (found.union(more), after)
                },
                _ => (found, seen),
            }
        }
    }

    /// What the first `n` modules that are passed on whole export under `name`.
    pub open spec fn through_stars(
        self,
        types: bool,
        path: Seq<Seq<char>>,
        name: Seq<char>,
        n: nat,
        visited: Set<Slot>,
        depth: nat,
    ) -> (Set<NodeModel>, Set<Slot>)
        decreases depth, 2 * self.modules.dom().len() + 4, n,
        when self.modules.dom().finite()
    {
        if n == 0 {
            (Set::empty(), visited)
        } else {
            let (found, seen) = self.through_stars(
                types,
                path,
                name,
                (n - 1) as nat,
                visited,
                depth,
            );
            match self.resolve(path, stars_of(self.modules[path], types)[n - 1]@) {
                Some(next) => {
                    let (more, after) = self.exports_of(types, next, name, seen, depth);
                    (found.union(more), after)
                },
                None => (found, seen),
            }
        }
    }

    /// Everything the module at `path` exports. `trail` holds the modules that pass this one on;
    /// coming round to one of them adds nothing.
    pub open spec fn all_exports(
        self,
        types: bool,
        path: Seq<Seq<char>>,
        visited: Set<Slot>,
        trail: Set<Seq<Seq<char>>>,
        depth: nat,
    ) -> (Set<NodeModel>, Set<Slot>)
        decreases depth, 2 * self.modules.dom().difference(trail).len() + 2, 0nat,
        when self.modules.dom().finite()
    {
        if !self.modules.dom().contains(path) || trail.contains(path) {
            (Set::empty(), visited)
        } else {
            proof {
                difference_shrinks(self.modules.dom(), trail, path);
            }
            self.passed_on_whole(
                types,
                path,
                stars_of(self.modules[path], types).len(),
                visited,
                trail.insert(path),
                depth,
            )
        }
    }

    /// What the first `n` of the module's own export names lead to.
    pub open spec fn all_locals(
        self,
        types: bool,
        path: Seq<Seq<char>>,
        n: nat,
        visited: Set<Slot>,
        depth: nat,
    ) -> (Set<NodeModel>, Set<Slot>)
        decreases depth, 1nat, n,
        when self.modules.dom().finite()
    {
        if n == 0 {
            (Set::empty(), visited)
        } else {
            let (found, seen) = self.all_locals(types, path, (n - 1) as nat, visited, depth);
            let (more, after) = self.exports_of(
                types,
                path,
                local_names(self.modules[path], types)[n - 1],
                seen,
                depth,
            );
            (found.union(more), after)
        }
    }

    /// The same for all own names and the first `n` re-exported names.
    pub open spec fn all_re_exports(
        self,
        types: bool,
        path: Seq<Seq<char>>,
        n: nat,
        visited: Set<Slot>,
        depth: nat,
    ) -> (Set<NodeModel>, Set<Slot>)
        decreases depth, 2nat, n,
        when self.modules.dom().finite()
    {
        if n == 0 {
            self.all_locals(
                types,
                path,
                local_names(self.modules[path], types).len(),
                visited,
                depth,
            )
        } else {
            let (found, seen) = self.all_re_exports(types, path, (n - 1) as nat, visited, depth);
            let (more, after) = self.exports_of(
                types,
                path,
                re_exports_of(self.modules[path], types)[n - 1].exported@,
                seen,
                depth,
            );
            (found.union(more), after)
        }
    }

    /// The same for all names and the first `n` modules that are passed on whole.
    pub open spec fn passed_on_whole(
        self,
        types: bool,
        path: Seq<Seq<char>>,
        n: nat,
        visited: Set<Slot>,
        trail: Set<Seq<Seq<char>>>,
        depth: nat,
    ) -> (Set<NodeModel>, Set<Slot>)
        decreases depth, 2 * self.modules.dom().difference(trail).len() + 3, n,
        when self.modules.dom().finite()
    {
        if n == 0 {
            self.all_re_exports(
                types,
                path,
                re_exports_of(self.modules[path], types).len(),
                visited,
                depth,
            )
        } else {
            let (found, seen) = self.passed_on_whole(
                types,
                path,
                (n - 1) as nat,
                visited,
                trail,
                depth,
            );
            match self.resolve(path, stars_of(self.modules[path], types)[n - 1]@) {
                Some(next) => {
                    let (more, after) = self.all_exports(types, next, seen, trail, depth);
                    (found.union(more), after)
                },
                None => (found, seen),
            }
        }
    }
}

/// The union of finitely many finite sets is finite.
proof fn finite_union<A, B>(all: Set<A>, f: spec_fn(A) -> Set<B>)
    requires
        all.finite(),
        forall|a: A| all.contains(a) ==> (#[trigger] f(a)).finite(),
    ensures
        Set::new(|b: B| exists|a: A| all.contains(a) && (#[trigger] f(a)).contains(b)).finite(),
    decreases all.len(),
{
    let whole = Set::new(|b: B| exists|a: A| all.contains(a) && (#[trigger] f(a)).contains(b));
    if all.len() == 0 {
        all.lemma_len0_is_empty();
        assert(whole =~= Set::empty());
    } else {
        let x = all.choose();
        let rest = all.remove(x);
        finite_union(rest, f);
        let part = Set::new(|b: B| exists|a: A| rest.contains(a) && (#[trigger] f(a)).contains(b));
        assert(whole =~= part.union(f(x))) by {
            assert forall|b: B| whole.contains(b) == part.union(f(x)).contains(b) by {
                if part.contains(b) {
                    let a = choose|a: A| rest.contains(a) && (#[trigger] f(a)).contains(b);
                    assert(all.contains(a) && f(a).contains(b));
                }
                if f(x).contains(b) {
                    assert(all.contains(x) && f(x).contains(b));
                }
            }
        }
    }
}

proof fn re_export_names_are_finite(list: Seq<ReExport>)
    ensures
        Set::new(|n: Seq<char>| re_export_mentions(list, n)).finite(),
    decreases list.len(),
{
    let names = Set::new(|n: Seq<char>| re_export_mentions(list, n));
    if list.len() == 0 {
        assert(names =~= Set::empty());
    } else {
        let init = list.drop_last();
        re_export_names_are_finite(init);
        let before = Set::new(|n: Seq<char>| re_export_mentions(init, n));
        let last = list.last();
        imported_names_are_finite(last.imported);
        let own = Set::new(|n: Seq<char>| import_mentions(last.imported, n));
        assert(names =~= before.union(own).insert(last.exported@)) by {
            assert forall|n: Seq<char>|
                names.contains(n) == before.union(own).insert(last.exported@).contains(n) by {
                if re_export_mentions(init, n) {
                    let i = choose|i: int|
                        0 <= i < init.len() && ((#[trigger] init[i]).exported@ == n
                            || import_mentions(init[i].imported, n));
                    assert(list[i] == init[i]);
                }
                if own.contains(n) || n == last.exported@ {
                    assert(list[list.len() - 1] == last);
                }
                if names.contains(n) {
                    let i = choose|i: int|
                        0 <= i < list.len() && ((#[trigger] list[i]).exported@ == n
                            || import_mentions(list[i].imported, n));
                    if i < init.len() {
                        assert(init[i] == list[i]);
                    }
                }
            }
        }
    }
}

proof fn imported_names_are_finite(imported: ImportedName)
    ensures
        Set::new(|n: Seq<char>| import_mentions(imported, n)).finite(),
{
    let names = Set::new(|n: Seq<char>| import_mentions(imported, n));
    match imported {
        ImportedName::Named(n) => {
            assert(names =~= set![n@]);
        },
        ImportedName::Namespace { members: Some(members) } => {
            members.is_finite();
            assert(names =~= members@);
        },
        ImportedName::Namespace { members: None } => {
            assert(names =~= Set::empty());
        },
    }
}

proof fn bound_names_are_finite(imports: Map<Seq<char>, ImportBinding>)
    requires
        imports.dom().finite(),
    ensures
        Set::new(|n: Seq<char>| bindings_mention(imports, n)).finite(),
{
    let f = |k: Seq<char>| Set::new(|n: Seq<char>| import_mentions(imports[k].imported, n));
    assert forall|k: Seq<char>| imports.dom().contains(k) implies (#[trigger] f(k)).finite() by {
        imported_names_are_finite(imports[k].imported);
    }
    finite_union(imports.dom(), f);
    let names = Set::new(|n: Seq<char>| bindings_mention(imports, n));
    let u = Set::new(
        |b: Seq<char>| exists|a: Seq<char>| imports.dom().contains(a) && (#[trigger] f(a)).contains(b),
    );
    assert forall|n: Seq<char>| names.contains(n) == u.contains(n) by {
        if names.contains(n) {
            let k = choose|k: Seq<char>|
                imports.dom().contains(k) && #[trigger] import_mentions(imports[k].imported, n);
            assert(f(k).contains(n));
        }
        if u.contains(n) {
            let k = choose|k: Seq<char>| imports.dom().contains(k) && (#[trigger] f(k)).contains(n);
            assert(import_mentions(imports[k].imported, n));
        }
    }
    assert(names =~= u);
}

proof fn mentioned_names_are_finite(m: ParsedModule)
    ensures
        Set::new(|n: Seq<char>| mentions(m, n)).finite(),
{
    m.local_exports.dom_is_finite();
    m.type_local_exports.dom_is_finite();
    m.imports.dom_is_finite();
    m.type_imports.dom_is_finite();
    re_export_names_are_finite(m.re_exports@);
    re_export_names_are_finite(m.type_re_exports@);
    bound_names_are_finite(m.imports@);
    bound_names_are_finite(m.type_imports@);
    let a = Set::new(|n: Seq<char>| re_export_mentions(m.re_exports@, n));
    let b = Set::new(|n: Seq<char>| re_export_mentions(m.type_re_exports@, n));
    let c = Set::new(|n: Seq<char>| bindings_mention(m.imports@, n));
    let d = Set::new(|n: Seq<char>| bindings_mention(m.type_imports@, n));
    let all = m.local_exports@.dom().union(m.type_local_exports@.dom()).union(a).union(b).union(
        c,
    ).union(d);
    assert(Set::new(|n: Seq<char>| mentions(m, n)) =~= all);
}

impl World {
    pub proof fn slots_are_finite(self)
        requires
            self.modules.dom().finite(),
        ensures
            self.slots().finite(),
    {
        let f = |p: Seq<Seq<char>>| Set::new(|n: Seq<char>| mentions(self.modules[p], n));
        assert forall|p: Seq<Seq<char>>| self.modules.dom().contains(p) implies (#[trigger] f(
            p,
        )).finite() by {
            mentioned_names_are_finite(self.modules[p]);
        }
        finite_union(self.modules.dom(), f);
        let names = Set::new(
            |n: Seq<char>|
                exists|p: Seq<Seq<char>>| self.modules.dom().contains(p) && (#[trigger] f(p)).contains(n),
        );
        assert forall|n: Seq<char>| names.contains(n) == self.knows(n) by {
            if self.knows(n) {
                let p = choose|p: Seq<Seq<char>>|
                    self.modules.dom().contains(p) && #[trigger] mentions(self.modules[p], n);
                assert(f(p).contains(n));
            }
            if names.contains(n) {
                let p = choose|p: Seq<Seq<char>>|
                    self.modules.dom().contains(p) && (#[trigger] f(p)).contains(n);
                assert(mentions(self.modules[p], n));
            }
        }
        let g = |p: Seq<Seq<char>>| names.map(|n: Seq<char>| (p, n));
        assert forall|p: Seq<Seq<char>>| self.modules.dom().contains(p) implies (#[trigger] g(
            p,
        )).finite() by {
            names.lemma_map_finite(|n: Seq<char>| (p, n));
        }
        finite_union(self.modules.dom(), g);
        let u = Set::new(
            |k: Slot|
                exists|p: Seq<Seq<char>>| self.modules.dom().contains(p) && (#[trigger] g(p)).contains(k),
        );
        assert forall|k: Slot| self.slots().contains(k) implies u.contains(k) by {
            assert(names.contains(k.1));
            let h = |n: Seq<char>| (k.0, n);
            assert(h(k.1) == k);
            assert(names.map(h).contains(k));
            assert(g(k.0).contains(k));
        }
        vstd::set_lib::lemma_set_subset_finite(u, self.slots());
    }

    /// Visiting a slot for the first time leaves fewer to visit.
    pub(crate) proof fn visiting_lowers(self, visited: Set<Slot>, slot: Slot, later: Set<Slot>)
        requires
            self.modules.dom().finite(),
            self.slots().contains(slot),
            !visited.contains(slot),
            visited.insert(slot).subset_of(later),
        ensures
            self.slots().difference(later).len() < self.slots().difference(visited).len(),
    {
        self.slots_are_finite();
        difference_shrinks(self.slots(), visited, slot);
        vstd::set_lib::lemma_set_subset_finite(
            self.slots(),
            self.slots().difference(visited.insert(slot)),
        );
        vstd::set_lib::lemma_len_subset(
            self.slots().difference(later),
            self.slots().difference(visited.insert(slot)),
        );
    }

    pub(crate) proof fn fewer_left(self, visited: Set<Slot>, later: Set<Slot>)
        requires
            self.modules.dom().finite(),
            visited.subset_of(later),
        ensures
            self.slots().difference(later).len() <= self.slots().difference(visited).len(),
    {
        self.slots_are_finite();
        vstd::set_lib::lemma_set_subset_finite(self.slots(), self.slots().difference(visited));
        vstd::set_lib::lemma_len_subset(
            self.slots().difference(later),
            self.slots().difference(visited),
        );
    }
}

impl<'a> Scope<'a> {
    fn own_export(&self, types: bool, path: &FilePath, m: &ParsedModule, name: &String) -> (r: KeySet<
        Node,
    >)
        requires
            self@.modules.dom().contains(path@),
            self@.modules[path@] == *m,
        ensures
            r@ == self@.own_export(types, path@, name@),
    {
        let mut out: KeySet<Node> = KeySet::new();
        let local = if types {
            m.type_local_exports.get(name)
        } else {
            m.local_exports.get(name)
        };
        match local {
            Some(symbol) => match m.symbols.get(symbol) {
                Some(info) => if types || info.runtime {
                    out.insert(Node { file: path.dup(), symbol: symbol.clone() });
                    assert(out@ =~= self@.own_export(types, path@, name@));
                },
                None => {},
            },
            None => {},
        }
        assert(out@ =~= self@.own_export(types, path@, name@));
        out
    }

    /// The symbols behind one export of one module.
    pub(crate) fn resolve_export(
        &self,
        types: bool,
        path: &FilePath,
        name: &String,
        visited: &mut KeySet<(FilePath, String)>,
        Ghost(depth): Ghost<nat>,
    ) -> (r: KeySet<Node>)
        requires
            self@.modules.dom().finite(),
            self@.knows(name@),
            depth > self@.slots().difference(old(visited)@).len(),
        ensures
            (r@, final(visited)@) == self@.exports_of(types, path@, name@, old(visited)@, depth),
            old(visited)@.subset_of(final(visited)@),
        decreases depth, 0nat,
    {
        let ghost w = self@;
        let ghost start = visited@;
        let ghost slot: Slot = (path@, name@);
        if !visited.insert((path.dup(), name.clone())) {
            assert(visited@ =~= start);
            return KeySet::new();
        }
        let m = match self.modules.get(path) {
            Some(m) => m,
            None => {
                return KeySet::new();
            },
        };
        assert(w.slots().contains(slot));
        let ghost first = visited@;
        let ghost inner = (depth - 1) as nat;
        let mut found = self.own_export(types, path, m, name);
        let list = if types {
            &m.type_re_exports
        } else {
            &m.re_exports
        };
        let mut i: usize = 0;
        while i < list.len()
            invariant
                i <= list.len(),
                w == self@,
                w.modules.dom().finite(),
                w.modules.dom().contains(path@),
                w.modules[path@] == *m,
                list@ == re_exports_of(*m, types),
                depth > w.slots().difference(start).len(),
                depth > 0,
                inner == depth - 1,
                slot == (path@, name@),
                w.slots().contains(slot),
                !start.contains(slot),
                first == start.insert(slot),
                first.subset_of(visited@),
                (found@, visited@) == w.through_re_exports(
                    types,
                    path@,
                    name@,
                    i as nat,
                    first,
                    inner,
                ),
            decreases list.len() - i,
        {
            let entry = &list[i];
            let ghost seen = visited@;
            if same(entry.exported.as_str(), name.as_str()) {
                match self.resolve(path, entry.source.as_str()) {
                    Some(next) => {
                        proof {
                            w.visiting_lowers(start, slot, visited@);
                        }
                        let more = match &entry.imported {
                            ImportedName::Named(inner_name) => {
                                proof {
                                    assert(list@[i as int] == *entry);
                                    assert(import_mentions(entry.imported, inner_name@));
                                    assert(re_export_mentions(list@, inner_name@));
                                    assert(mentions(w.modules[path@], inner_name@));
                                }
                                self.resolve_export(
                                    types,
                                    &next,
                                    inner_name,
                                    visited,
                                    Ghost(inner),
                                )
                            },
                            ImportedName::Namespace { members: _ } => {
                                let trail: KeySet<FilePath> = KeySet::new();
                                self.all_exports(types, &next, visited, &trail, Ghost(inner))
                            },
                        };
                        found.extend(&more);
                    },
                    None => {},
                }
            }
            i += 1;
        }
        if found.len() == 0 && !same(name.as_str(), "default") {
            let ghost searched = visited@;
            let stars = if types {
                &m.type_star_exports
            } else {
                &m.star_exports
            };
            let mut k: usize = 0;
            while k < stars.len()
                invariant
                    k <= stars.len(),
                    w == self@,
                    w.modules.dom().finite(),
                    w.knows(name@),
                    w.modules.dom().contains(path@),
                    w.modules[path@] == *m,
                    stars@ == stars_of(*m, types),
                    depth > w.slots().difference(start).len(),
                    depth > 0,
                    inner == depth - 1,
                    slot == (path@, name@),
                    w.slots().contains(slot),
                    !start.contains(slot),
                    first == start.insert(slot),
                    first.subset_of(searched),
                    searched.subset_of(visited@),
                    (found@, visited@) == w.through_stars(
                        types,
                        path@,
                        name@,
                        k as nat,
                        searched,
                        inner,
                    ),
                decreases stars.len() - k,
            {
                match self.resolve(path, stars[k].as_str()) {
                    Some(next) => {
                        proof {
                            w.visiting_lowers(start, slot, visited@);
                        }
                        let more = self.resolve_export(types, &next, name, visited, Ghost(inner));
                        found.extend(&more);
                    },
                    None => {},
                }
                k += 1;
            }
        }
        found
    }

    /// Everything one module exports.
    pub(crate) fn all_exports(
        &self,
        types: bool,
        path: &FilePath,
        visited: &mut KeySet<(FilePath, String)>,
        trail: &KeySet<FilePath>,
        Ghost(depth): Ghost<nat>,
    ) -> (r: KeySet<Node>)
        requires
            self@.modules.dom().finite(),
            depth > self@.slots().difference(old(visited)@).len(),
        ensures
            (r@, final(visited)@) == self@.all_exports(types, path@, old(visited)@, trail@, depth),
            old(visited)@.subset_of(final(visited)@),
        decreases depth, 2 * self@.modules.dom().difference(trail@).len() + 2,
    {
        let ghost w = self@;
        let ghost start = visited@;
        if trail.contains(path) {
            return KeySet::new();
        }
        let m = match self.modules.get(path) {
            Some(m) => m,
            None => {
                return KeySet::new();
            },
        };
        let mut longer = trail.dup();
        longer.insert(path.dup());
        proof {
            difference_shrinks(w.modules.dom(), trail@, path@);
        }
        let mut found: KeySet<Node> = KeySet::new();
        let locals = if types {
            &m.type_local_exports
        } else {
            &m.local_exports
        };
        let count = locals.len();
        let mut i: usize = 0;
        while i < count
            invariant
                i <= count,
                w == self@,
                w.modules.dom().finite(),
                w.modules.dom().contains(path@),
                w.modules[path@] == *m,
                locals@ == locals_of(*m, types),
                locals.keys() == local_names(*m, types),
                count == locals.keys().len(),
                depth > w.slots().difference(start).len(),
                start.subset_of(visited@),
                (found@, visited@) == w.all_locals(types, path@, i as nat, start, depth),
            decreases count - i,
        {
            let name = locals.key_at(i);
            proof {
                w.fewer_left(start, visited@);
                assert(mentions(w.modules[path@], name@));
            }
            let more = self.resolve_export(types, path, name, visited, Ghost(depth));
            found.extend(&more);
            i += 1;
        }
        let list = if types {
            &m.type_re_exports
        } else {
            &m.re_exports
        };
        let mut j: usize = 0;
        while j < list.len()
            invariant
                j <= list.len(),
                w == self@,
                w.modules.dom().finite(),
                w.modules.dom().contains(path@),
                w.modules[path@] == *m,
                list@ == re_exports_of(*m, types),
                depth > w.slots().difference(start).len(),
                start.subset_of(visited@),
                (found@, visited@) == w.all_re_exports(types, path@, j as nat, start, depth),
            decreases list.len() - j,
        {
            let name = &list[j].exported;
            proof {
                w.fewer_left(start, visited@);
                assert(list@[j as int].exported@ == name@);
                assert(re_export_mentions(list@, name@));
                assert(mentions(w.modules[path@], name@));
            }
            let more = self.resolve_export(types, path, name, visited, Ghost(depth));
            found.extend(&more);
            j += 1;
        }
        let stars = if types {
            &m.type_star_exports
        } else {
            &m.star_exports
        };
        let mut k: usize = 0;
        while k < stars.len()
            invariant
                k <= stars.len(),
                w == self@,
                w.modules.dom().finite(),
                w.modules.dom().contains(path@),
                w.modules[path@] == *m,
                stars@ == stars_of(*m, types),
                longer@ == trail@.insert(path@),
                w.modules.dom().difference(longer@).len() + 1 == w.modules.dom().difference(
                    trail@,
                ).len(),
                depth > w.slots().difference(start).len(),
                start.subset_of(visited@),
                (found@, visited@) == w.passed_on_whole(
                    types,
                    path@,
                    k as nat,
                    start,
                    longer@,
                    depth,
                ),
            decreases stars.len() - k,
        {
            match self.resolve(path, stars[k].as_str()) {
                Some(next) => {
                    proof {
                        w.fewer_left(start, visited@);
                    }
                    let more = self.all_exports(types, &next, visited, &longer, Ghost(depth));
                    found.extend(&more);
                },
                None => {},
            }
            k += 1;
        }
        found
    }
}

} // verus!
