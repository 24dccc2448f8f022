//! What holds of every search through the exports of modules.
use vstd::prelude::*;

use crate::collections::difference_shrinks;
use crate::graph::exports::{
    import_mentions, local_names, locals_of, mentions, re_export_mentions, re_exports_of, stars_of,
    Slot,
};
use crate::graph::node::NodeModel;
use crate::graph::resolve::World;
use crate::parser::ImportedName;
use crate::walk::{closed_holds_reached, is_walk, reaches, reaches_self, reaches_trans, walk_between};

verus! {

pub type Text = Seq<char>;

pub type Path = Seq<Seq<char>>;

/// A module declares and exports a symbol itself: `node` is the symbol behind the export. A value
/// must exist at run time.
pub open spec fn declares(w: World, types: bool, slot: Slot, node: NodeModel) -> bool {
    let m = w.modules[slot.0];
    let exports = if types {
        m.type_local_exports@
    } else {
        m.local_exports@
    };
    &&& w.modules.dom().contains(slot.0)
    &&& exports.dom().contains(slot.1)
    &&& node == (slot.0, exports[slot.1]@)
    &&& m.symbols@.dom().contains(exports[slot.1]@)
    &&& types || m.symbols@[exports[slot.1]@].runtime
}

/// Entry `i` of the re-exports of a module passes the export `b` of another on as `a`.
pub open spec fn re_exports_at(w: World, types: bool, a: Slot, b: Slot, i: int) -> bool {
    let m = w.modules[a.0];
    let list = if types {
        m.type_re_exports@
    } else {
        m.re_exports@
    };
    &&& w.modules.dom().contains(a.0)
    &&& 0 <= i < list.len()
    &&& list[i].exported@ == a.1
    &&& w.resolve(a.0, list[i].source@) == Some(b.0)
    &&& list[i].imported matches ImportedName::Named(name) && name@ == b.1
}

/// Entry `i` of the modules that the module at `a` passes on whole is the one at `b`.
pub open spec fn stars_at(w: World, types: bool, a: Path, b: Path, i: int) -> bool {
    let m = w.modules[a];
    let list = if types {
        m.type_star_exports@
    } else {
        m.star_exports@
    };
    &&& w.modules.dom().contains(a)
    &&& 0 <= i < list.len()
    &&& w.resolve(a, list[i]@) == Some(b)
}

/// A module has neither an export of its own under this name nor a re-export.
pub open spec fn is_bare(w: World, types: bool, a: Slot) -> bool {
    let m = w.modules[a.0];
    &&& forall|node: NodeModel| !#[trigger] declares(w, types, a, node)
    &&& types ==> forall|i: int|
        0 <= i < m.type_re_exports@.len() ==> (#[trigger] m.type_re_exports@[i]).exported@ != a.1
    &&& !types ==> forall|i: int|
        0 <= i < m.re_exports@.len() ==> (#[trigger] m.re_exports@[i]).exported@ != a.1
}

/// The export `a` is the export `b` of another module: by a re-export of that name, or, for a
/// name other than `default` that the module does not export otherwise, by passing the other
/// module on whole.
pub open spec fn passes(w: World, types: bool) -> spec_fn(Slot, Slot) -> bool {
    |a: Slot, b: Slot|
        (exists|i: int| #[trigger] re_exports_at(w, types, a, b, i)) || (b.1 == a.1 && a.1
            != "default"@ && is_bare(w, types, a) && exists|i: int| #[trigger]
            stars_at(w, types, a.0, b.0, i))
}

/// What a search keeps: of every slot that it visited the declaration was found, and what the
/// slot passes on was visited.
spec fn keeps(
    w: World,
    types: bool,
    before: Set<Slot>,
    found: Set<NodeModel>,
    after: Set<Slot>,
) -> bool {
    &&& before.subset_of(after)
    &&& forall|slot: Slot, node: NodeModel|
        after.contains(slot) && !before.contains(slot) && #[trigger] declares(w, types, slot, node)
            ==> found.contains(node)
    &&& forall|a: Slot, b: Slot|
        after.contains(a) && !before.contains(a) && #[trigger] passes(w, types)(a, b)
            ==> after.contains(b)
}

proof fn keeps_nothing(w: World, types: bool, visited: Set<Slot>)
    ensures
        keeps(w, types, visited, Set::empty(), visited),
{
}

proof fn keeps_both(
    w: World,
    types: bool,
    a: Set<Slot>,
    x: Set<NodeModel>,
    b: Set<Slot>,
    y: Set<NodeModel>,
    c: Set<Slot>,
)
    requires
        keeps(w, types, a, x, b),
        keeps(w, types, b, y, c),
    ensures
        keeps(w, types, a, x.union(y), c),
{
}

proof fn own_exports_are_declared(w: World, types: bool, path: Path, name: Text)
    requires
        w.modules.dom().contains(path),
    ensures
        forall|node: NodeModel| #[trigger]
            w.own_export(types, path, name).contains(node) == declares(w, types, (path, name), node),
{
}

/// There is room for a search.
spec fn has_room(w: World, visited: Set<Slot>, depth: nat) -> bool {
    w.slots().difference(visited).len() < depth
}

proof fn room_stays(w: World, visited: Set<Slot>, later: Set<Slot>, depth: nat)
    requires
        w.modules.dom().finite(),
        has_room(w, visited, depth),
        visited.subset_of(later),
    ensures
        has_room(w, later, depth),
{
    w.fewer_left(visited, later);
}

proof fn re_exports_are_known(w: World, types: bool, path: Path, i: int)
    requires
        w.modules.dom().contains(path),
        0 <= i < re_exports_of(w.modules[path], types).len(),
    ensures
        w.knows(re_exports_of(w.modules[path], types)[i].exported@),
        forall|name: Text|
            import_mentions(re_exports_of(w.modules[path], types)[i].imported, name)
                ==> #[trigger] w.knows(name),
{
    let m = w.modules[path];
    let list = re_exports_of(m, types);
    assert(re_export_mentions(list, list[i].exported@));
    assert(mentions(m, list[i].exported@));
    assert forall|name: Text| import_mentions(list[i].imported, name) implies #[trigger] w.knows(name) by {
        assert(re_export_mentions(list, name));
        assert(mentions(m, name));
    }
}

proof fn locals_are_known(w: World, types: bool, path: Path, i: int)
    requires
        w.modules.dom().contains(path),
        0 <= i < local_names(w.modules[path], types).len(),
    ensures
        w.knows(local_names(w.modules[path], types)[i]),
{
    let m = w.modules[path];
    m.local_exports.dom_is_finite();
    m.type_local_exports.dom_is_finite();
    let name = local_names(m, types)[i];
    assert(local_names(m, types).to_set().contains(name));
    assert(mentions(m, name));
}

proof fn search_keeps(w: World, types: bool, path: Path, name: Text, visited: Set<Slot>, depth: nat)
    requires
        w.modules.dom().finite(),
        w.knows(name),
        has_room(w, visited, depth),
    ensures
        keeps(
            w,
            types,
            visited,
            w.exports_of(types, path, name, visited, depth).0,
            w.exports_of(types, path, name, visited, depth).1,
        ),
        w.exports_of(types, path, name, visited, depth).1.contains((path, name)),
    decreases depth, 0nat, 0nat,
{
    let slot = (path, name);
    let (found, after) = w.exports_of(types, path, name, visited, depth);
    if visited.contains(slot) {
        keeps_nothing(w, types, visited);
    } else if !w.modules.dom().contains(path) {
        assert(keeps(w, types, visited, found, after));
    } else {
        let start = visited.insert(slot);
        let less = (depth - 1) as nat;
        assert(w.slots().contains(slot));
        w.visiting_lowers(visited, slot, start);
        let n = re_exports_of(w.modules[path], types).len();
        let k = stars_of(w.modules[path], types).len();
        re_exports_keep(w, types, path, name, n, start, less);
        let (first, seen) = w.through_re_exports(types, path, name, n, start, less);
        own_exports_are_declared(w, types, path, name);
        assert forall|b: Slot, i: int| #[trigger] re_exports_at(w, types, slot, b, i) implies seen.contains(
            b,
        ) by {}
        if first == Set::<NodeModel>::empty() && name != "default"@ {
            room_stays(w, start, seen, less);
            stars_keep(w, types, path, name, k, seen, less);
            let (second, last) = w.through_stars(types, path, name, k, seen, less);
            assert(first.union(second) =~= second);
            keeps_both(w, types, start, first, seen, second, last);
            assert forall|b: Slot| #[trigger] passes(w, types)(slot, b) implies last.contains(b) by {
                if exists|i: int| #[trigger] re_exports_at(w, types, slot, b, i) {
                    let i = choose|i: int| #[trigger] re_exports_at(w, types, slot, b, i);
                    assert(seen.contains(b));
                } else {
                    let i = choose|i: int| #[trigger] stars_at(w, types, path, b.0, i);
                    assert(last.contains((b.0, name)));
                }
            }
            assert forall|node: NodeModel| !declares(w, types, slot, node) by {
                if declares(w, types, slot, node) {
                    assert(first.contains(node));
                }
            }
        } else {
            assert forall|b: Slot| #[trigger] passes(w, types)(slot, b) implies seen.contains(b) by {
                if !(exists|i: int| #[trigger] re_exports_at(w, types, slot, b, i)) {
                    assert(is_bare(w, types, slot));
                    bare_re_exports_find_nothing(w, types, path, name, n, start, less);
                    assert(w.own_export(types, path, name) =~= Set::empty()) by {
                        assert forall|node: NodeModel| !w.own_export(types, path, name).contains(node) by {
                            assert(!declares(w, types, slot, node));
                        }
                    }
                }
            }
        }
    }
}

proof fn bare_re_exports_find_nothing(
    w: World,
    types: bool,
    path: Path,
    name: Text,
    n: nat,
    visited: Set<Slot>,
    depth: nat,
)
    requires
        w.modules.dom().finite(),
        n <= re_exports_of(w.modules[path], types).len(),
        forall|i: int|
            0 <= i < re_exports_of(w.modules[path], types).len() ==> (#[trigger] re_exports_of(
                w.modules[path],
                types,
            )[i]).exported@ != name,
    ensures
        w.through_re_exports(types, path, name, n, visited, depth) == (
            w.own_export(types, path, name),
            visited,
        ),
    decreases n,
{
    if n > 0 {
        bare_re_exports_find_nothing(w, types, path, name, (n - 1) as nat, visited, depth);
        assert(re_exports_of(w.modules[path], types)[n - 1].exported@ != name);
    }
}

proof fn re_exports_keep(
    w: World,
    types: bool,
    path: Path,
    name: Text,
    n: nat,
    visited: Set<Slot>,
    depth: nat,
)
    requires
        w.modules.dom().finite(),
        w.modules.dom().contains(path),
        has_room(w, visited, depth),
        n <= re_exports_of(w.modules[path], types).len(),
    ensures
        ({
            let (found, seen) = w.through_re_exports(types, path, name, n, visited, depth);
            &&& keeps(w, types, visited, found, seen)
            &&& w.own_export(types, path, name).subset_of(found)
            &&& forall|b: Slot, i: int|
                i < n && #[trigger] re_exports_at(w, types, (path, name), b, i) ==> seen.contains(b)
        }),
    decreases depth, 2 * w.modules.dom().len() + 4, n,
{
    if n > 0 {
        re_exports_keep(w, types, path, name, (n - 1) as nat, visited, depth);
        let (found, seen) = w.through_re_exports(types, path, name, (n - 1) as nat, visited, depth);
        let entry = re_exports_of(w.modules[path], types)[n - 1];
        room_stays(w, visited, seen, depth);
        re_exports_are_known(w, types, path, n - 1);
        match w.resolve(path, entry.source@) {
            Some(next) if entry.exported@ == name => {
                let (more, after) = match entry.imported {
                    ImportedName::Named(inner) => {
                        assert(import_mentions(entry.imported, inner@));
                        search_keeps(w, types, next, inner@, seen, depth);
                        w.exports_of(types, next, inner@, seen, depth)
                    },
                    ImportedName::Namespace { members: _ } => {
                        assert(w.modules.dom().difference(Set::empty()) =~= w.modules.dom());
                        whole_search_keeps(w, types, next, seen, Set::empty(), depth);
                        w.all_exports(types, next, seen, Set::empty(), depth)
                    },
                };
                keeps_both(w, types, visited, found, seen, more, after);
                assert(w.through_re_exports(types, path, name, n, visited, depth) == (
                    found.union(more),
                    after,
                ));
                assert forall|b: Slot, i: int|
                    i < n && #[trigger] re_exports_at(w, types, (path, name), b, i) implies after.contains(
                    b,
                ) by {
                    if i < n - 1 {
                        assert(seen.contains(b));
                    }
                }
            },
            _ => {
                assert forall|b: Slot, i: int|
                    i < n && #[trigger] re_exports_at(w, types, (path, name), b, i) implies seen.contains(
                    b,
                ) by {}
            },
        }
    } else {
        assert(keeps(w, types, visited, w.own_export(types, path, name), visited));
    }
}

proof fn stars_keep(
    w: World,
    types: bool,
    path: Path,
    name: Text,
    n: nat,
    visited: Set<Slot>,
    depth: nat,
)
    requires
        w.modules.dom().finite(),
        w.modules.dom().contains(path),
        w.knows(name),
        has_room(w, visited, depth),
        n <= stars_of(w.modules[path], types).len(),
    ensures
        ({
            let (found, seen) = w.through_stars(types, path, name, n, visited, depth);
            &&& keeps(w, types, visited, found, seen)
            &&& forall|b: Path, i: int|
                i < n && #[trigger] stars_at(w, types, path, b, i) ==> seen.contains((b, name))
        }),
    decreases depth, 2 * w.modules.dom().len() + 4, n,
{
    if n > 0 {
        stars_keep(w, types, path, name, (n - 1) as nat, visited, depth);
        let (found, seen) = w.through_stars(types, path, name, (n - 1) as nat, visited, depth);
        room_stays(w, visited, seen, depth);
        if let Some(next) = w.resolve(path, stars_of(w.modules[path], types)[n - 1]@) {
            search_keeps(w, types, next, name, seen, depth);
            let (more, after) = w.exports_of(types, next, name, seen, depth);
            keeps_both(w, types, visited, found, seen, more, after);
        }
    } else {
        keeps_nothing(w, types, visited);
    }
}

proof fn whole_search_keeps(
    w: World,
    types: bool,
    path: Path,
    visited: Set<Slot>,
    trail: Set<Path>,
    depth: nat,
)
    requires
        w.modules.dom().finite(),
        has_room(w, visited, depth),
    ensures
        keeps(
            w,
            types,
            visited,
            w.all_exports(types, path, visited, trail, depth).0,
            w.all_exports(types, path, visited, trail, depth).1,
        ),
    decreases depth, 2 * w.modules.dom().difference(trail).len() + 2, 0nat,
{
    if !w.modules.dom().contains(path) || trail.contains(path) {
        keeps_nothing(w, types, visited);
    } else {
        difference_shrinks(w.modules.dom(), trail, path);
        passing_on_keeps(
            w,
            types,
            path,
            stars_of(w.modules[path], types).len(),
            visited,
            trail.insert(path),
            depth,
        );
    }
}

proof fn local_search_keeps(
    w: World,
    types: bool,
    path: Path,
    n: nat,
    visited: Set<Slot>,
    depth: nat,
)
    requires
        w.modules.dom().finite(),
        w.modules.dom().contains(path),
        has_room(w, visited, depth),
        n <= local_names(w.modules[path], types).len(),
    ensures
        ({
            let (found, seen) = w.all_locals(types, path, n, visited, depth);
            &&& keeps(w, types, visited, found, seen)
            &&& forall|i: int|
                0 <= i < n ==> seen.contains((path, #[trigger] local_names(w.modules[path], types)[i]))
        }),
    decreases depth, 1nat, n,
{
    if n > 0 {
        local_search_keeps(w, types, path, (n - 1) as nat, visited, depth);
        let (found, seen) = w.all_locals(types, path, (n - 1) as nat, visited, depth);
        room_stays(w, visited, seen, depth);
        locals_are_known(w, types, path, n - 1);
        let name = local_names(w.modules[path], types)[n - 1];
        search_keeps(w, types, path, name, seen, depth);
        let (more, after) = w.exports_of(types, path, name, seen, depth);
        keeps_both(w, types, visited, found, seen, more, after);
    } else {
        keeps_nothing(w, types, visited);
    }
}

proof fn passed_search_keeps(
    w: World,
    types: bool,
    path: Path,
    n: nat,
    visited: Set<Slot>,
    depth: nat,
)
    requires
        w.modules.dom().finite(),
        w.modules.dom().contains(path),
        has_room(w, visited, depth),
        n <= re_exports_of(w.modules[path], types).len(),
    ensures
        ({
            let (found, seen) = w.all_re_exports(types, path, n, visited, depth);
            &&& keeps(w, types, visited, found, seen)
            &&& forall|i: int|
                0 <= i < local_names(w.modules[path], types).len() ==> seen.contains(
                    (path, #[trigger] local_names(w.modules[path], types)[i]),
                )
            &&& forall|i: int|
                0 <= i < n ==> seen.contains(
                    (path, (#[trigger] re_exports_of(w.modules[path], types)[i]).exported@),
                )
        }),
    decreases depth, 2nat, n,
{
    if n > 0 {
        passed_search_keeps(w, types, path, (n - 1) as nat, visited, depth);
        let (found, seen) = w.all_re_exports(types, path, (n - 1) as nat, visited, depth);
        room_stays(w, visited, seen, depth);
        re_exports_are_known(w, types, path, n - 1);
        let name = re_exports_of(w.modules[path], types)[n - 1].exported@;
        search_keeps(w, types, path, name, seen, depth);
        let (more, after) = w.exports_of(types, path, name, seen, depth);
        keeps_both(w, types, visited, found, seen, more, after);
    } else {
        local_search_keeps(
            w,
            types,
            path,
            local_names(w.modules[path], types).len(),
            visited,
            depth,
        );
    }
}

proof fn passing_on_keeps(
    w: World,
    types: bool,
    path: Path,
    n: nat,
    visited: Set<Slot>,
    trail: Set<Path>,
    depth: nat,
)
    requires
        w.modules.dom().finite(),
        w.modules.dom().contains(path),
        has_room(w, visited, depth),
        n <= stars_of(w.modules[path], types).len(),
    ensures
        ({
            let (found, seen) = w.passed_on_whole(types, path, n, visited, trail, depth);
            &&& keeps(w, types, visited, found, seen)
            &&& forall|i: int|
                0 <= i < local_names(w.modules[path], types).len() ==> seen.contains(
                    (path, #[trigger] local_names(w.modules[path], types)[i]),
                )
            &&& forall|i: int|
                0 <= i < re_exports_of(w.modules[path], types).len() ==> seen.contains(
                    (path, (#[trigger] re_exports_of(w.modules[path], types)[i]).exported@),
                )
        }),
    decreases depth, 2 * w.modules.dom().difference(trail).len() + 3, n,
{
    if n > 0 {
        passing_on_keeps(w, types, path, (n - 1) as nat, visited, trail, depth);
        let (found, seen) = w.passed_on_whole(types, path, (n - 1) as nat, visited, trail, depth);
        room_stays(w, visited, seen, depth);
        if let Some(next) = w.resolve(path, stars_of(w.modules[path], types)[n - 1]@) {
            whole_search_keeps(w, types, next, seen, trail, depth);
            let (more, after) = w.all_exports(types, next, seen, trail, depth);
            keeps_both(w, types, visited, found, seen, more, after);
        }
    } else {
        passed_search_keeps(
            w,
            types,
            path,
            re_exports_of(w.modules[path], types).len(),
            visited,
            depth,
        );
    }
}

proof fn search_finds(w: World, types: bool, path: Path, name: Text, slot: Slot, node: NodeModel)
    requires
        w.modules.dom().finite(),
        w.knows(name),
        reaches(passes(w, types), (path, name), slot),
        declares(w, types, slot, node),
    ensures
        w.exports(types, path, name).contains(node),
{
    assert(w.slots().difference(Set::<Slot>::empty()) =~= w.slots());
    search_keeps(w, types, path, name, Set::empty(), w.depth());
    let after = w.exports_of(types, path, name, Set::empty(), w.depth()).1;
    closed_holds_reached(passes(w, types), after, (path, name), slot);
}

proof fn member_search_keeps(w: World, types: bool, path: Path, names: Seq<Text>, n: nat)
    requires
        w.modules.dom().finite(),
        n <= names.len(),
        forall|i: int| 0 <= i < names.len() ==> w.knows(#[trigger] names[i]),
    ensures
        keeps(
            w,
            types,
            Set::empty(),
            w.members(types, path, names, n).0,
            w.members(types, path, names, n).1,
        ),
        forall|i: int|
            0 <= i < n ==> w.members(types, path, names, n).1.contains((path, #[trigger] names[i])),
    decreases n,
{
    if n > 0 {
        member_search_keeps(w, types, path, names, (n - 1) as nat);
        let (found, seen) = w.members(types, path, names, (n - 1) as nat);
        assert(w.slots().difference(Set::<Slot>::empty()) =~= w.slots());
        room_stays(w, Set::empty(), seen, w.depth());
        search_keeps(w, types, path, names[n - 1], seen, w.depth());
        let (more, after) = w.exports_of(types, path, names[n - 1], seen, w.depth());
        keeps_both(w, types, Set::empty(), found, seen, more, after);
    } else {
        keeps_nothing(w, types, Set::empty());
    }
}

/// One module passes another on whole.
pub open spec fn passes_whole(w: World, types: bool) -> spec_fn(Path, Path) -> bool {
    |a: Path, b: Path| exists|i: int| #[trigger] stars_at(w, types, a, b, i)
}

/// A module exports something under this name, of its own or by a re-export.
pub open spec fn names_export(w: World, types: bool, slot: Slot) -> bool {
    let m = w.modules[slot.0];
    &&& w.modules.dom().contains(slot.0)
    &&& if types {
        m.type_local_exports@.dom().contains(slot.1) || exists|i: int|
            0 <= i < m.type_re_exports@.len() && (#[trigger] m.type_re_exports@[i]).exported@ == slot.1
    } else {
        m.local_exports@.dom().contains(slot.1) || exists|i: int|
            0 <= i < m.re_exports@.len() && (#[trigger] m.re_exports@[i]).exported@ == slot.1
    }
}

proof fn passing_on_visits_names(
    w: World,
    types: bool,
    slot: Slot,
    n: nat,
    visited: Set<Slot>,
    trail: Set<Path>,
    depth: nat,
)
    requires
        w.modules.dom().finite(),
        has_room(w, visited, depth),
        names_export(w, types, slot),
        n <= stars_of(w.modules[slot.0], types).len(),
    ensures
        w.passed_on_whole(types, slot.0, n, visited, trail, depth).1.contains(slot),
{
    let m = w.modules[slot.0];
    passing_on_keeps(w, types, slot.0, n, visited, trail, depth);
    let seen = w.passed_on_whole(types, slot.0, n, visited, trail, depth).1;
    if locals_of(m, types).dom().contains(slot.1) {
        m.local_exports.dom_is_finite();
        m.type_local_exports.dom_is_finite();
        assert(local_names(m, types).to_set().contains(slot.1));
        let i = choose|i: int| 0 <= i < local_names(m, types).len() && local_names(m, types)[i] == slot.1;
        assert(seen.contains((slot.0, local_names(m, types)[i])));
    } else {
        let list = re_exports_of(m, types);
        let i = choose|i: int| 0 <= i < list.len() && (#[trigger] list[i]).exported@ == slot.1;
        assert(seen.contains((slot.0, list[i].exported@)));
    }
}

/// What follows the last visit of a walk to its first point.
proof fn walk_leaves(w: World, types: bool, p: Seq<Path>) -> (q: Seq<Path>)
    requires
        is_walk(passes_whole(w, types), p),
        p.last() != p[0],
    ensures
        is_walk(passes_whole(w, types), q),
        passes_whole(w, types)(p[0], q[0]),
        q.last() == p.last(),
        q.len() < p.len(),
        forall|i: int| 0 <= i < q.len() ==> p.contains(#[trigger] q[i]) && q[i] != p[0],
    decreases p.len(),
{
    let rest = p.skip(1);
    assert(passes_whole(w, types)(p[0], p[0int + 1]));
    assert(is_walk(passes_whole(w, types), rest)) by {
        assert forall|i: int|
            #![trigger rest[i], rest[i + 1]]
            0 <= i && i + 1 < rest.len() implies passes_whole(w, types)(rest[i], rest[i + 1]) by {
            assert(rest[i] == p[i + 1] && rest[i + 1] == p[i + 1 + 1]);
        }
    }
    if exists|i: int| 0 <= i < rest.len() && #[trigger] rest[i] == p[0] {
        let i = choose|i: int| 0 <= i < rest.len() && #[trigger] rest[i] == p[0];
        let later = rest.skip(i);
        assert(later[0] == p[0]);
        assert(later.last() == p.last());
        assert(is_walk(passes_whole(w, types), later)) by {
            assert forall|k: int|
                #![trigger later[k], later[k + 1]]
                0 <= k && k + 1 < later.len() implies passes_whole(w, types)(later[k], later[k + 1]) by {
                assert(later[k] == rest[k + i] && later[k + 1] == rest[k + i + 1]);
            }
        }
        let q = walk_leaves(w, types, later);
        assert forall|k: int| 0 <= k < q.len() implies p.contains(#[trigger] q[k]) && q[k] != p[0] by {
            let j = choose|j: int| 0 <= j < later.len() && later[j] == q[k];
            assert(p[j + i + 1] == q[k]);
        }
        q
    } else {
        assert forall|k: int| 0 <= k < rest.len() implies p.contains(#[trigger] rest[k]) && rest[k] != p[0] by {
            assert(p[k + 1] == rest[k]);
        }
        rest
    }
}

proof fn whole_search_visits(
    w: World,
    types: bool,
    p: Seq<Path>,
    slot: Slot,
    visited: Set<Slot>,
    trail: Set<Path>,
    depth: nat,
)
    requires
        w.modules.dom().finite(),
        has_room(w, visited, depth),
        is_walk(passes_whole(w, types), p),
        p.last() == slot.0,
        names_export(w, types, slot),
        forall|i: int| 0 <= i < p.len() ==> !trail.contains(#[trigger] p[i]),
    ensures
        w.all_exports(types, p[0], visited, trail, depth).1.contains(slot),
    decreases p.len(), 0nat,
{
    let path = p[0];
    let k = stars_of(w.modules[path], types).len();
    let inner = trail.insert(path);
    if p.last() == path {
        passing_on_visits_names(w, types, slot, k, visited, inner, depth);
    } else {
        let q = walk_leaves(w, types, p);
        let i = choose|i: int| #[trigger] stars_at(w, types, path, q[0], i);
        assert forall|j: int| 0 <= j < q.len() implies !inner.contains(#[trigger] q[j]) by {
            let x = choose|x: int| 0 <= x < p.len() && p[x] == q[j];
        }
        passing_on_visits(w, types, path, q, slot, i, k, visited, inner, depth);
    }
}

proof fn passing_on_visits(
    w: World,
    types: bool,
    path: Path,
    q: Seq<Path>,
    slot: Slot,
    i: int,
    n: nat,
    visited: Set<Slot>,
    trail: Set<Path>,
    depth: nat,
)
    requires
        w.modules.dom().finite(),
        has_room(w, visited, depth),
        stars_at(w, types, path, q[0], i),
        i < n <= stars_of(w.modules[path], types).len(),
        is_walk(passes_whole(w, types), q),
        q.last() == slot.0,
        names_export(w, types, slot),
        forall|j: int| 0 <= j < q.len() ==> !trail.contains(#[trigger] q[j]),
    ensures
        w.passed_on_whole(types, path, n, visited, trail, depth).1.contains(slot),
    decreases q.len(), n,
{
    passing_on_keeps(w, types, path, (n - 1) as nat, visited, trail, depth);
    let seen = w.passed_on_whole(types, path, (n - 1) as nat, visited, trail, depth).1;
    room_stays(w, visited, seen, depth);
    if i == n - 1 {
        whole_search_visits(w, types, q, slot, seen, trail, depth);
    } else {
        passing_on_visits(w, types, path, q, slot, i, (n - 1) as nat, visited, trail, depth);
        if let Some(next) = w.resolve(path, stars_of(w.modules[path], types)[n - 1]@) {
            whole_search_keeps(w, types, next, seen, trail, depth);
        }
    }
}

/// An import of `imported` from the module at `path` asks for the export `slot`: for the export
/// of that name, for one of the members that are used, or, where any member may be used, for an
/// export of the module or of one that it passes on whole.
pub open spec fn asks_for(w: World, types: bool, path: Path, imported: ImportedName, slot: Slot) -> bool {
    match imported {
        ImportedName::Named(name) => slot == (path, name@),
        ImportedName::Namespace { members: Some(members) } => slot.0 == path && members@.contains(
            slot.1,
        ),
        ImportedName::Namespace { members: None } => names_export(w, types, slot) && reaches(
            passes_whole(w, types),
            path,
            slot.0,
        ),
    }
}

/// An import takes every declaration behind the exports that it asks for, through any chain of
/// re-exports and of modules that are passed on whole.
pub proof fn imports_take_declarations(
    w: World,
    types: bool,
    path: Path,
    imported: ImportedName,
    asked: Slot,
    slot: Slot,
    node: NodeModel,
)
    requires
        w.modules.dom().finite(),
        forall|name: Text| import_mentions(imported, name) ==> #[trigger] w.knows(name),
        asks_for(w, types, path, imported, asked),
        reaches(passes(w, types), asked, slot),
        declares(w, types, slot, node),
    ensures
        w.taken(types, path, imported).contains(node),
{
    match imported {
        ImportedName::Named(name) => {
            assert(import_mentions(imported, name@));
            search_finds(w, types, path, name@, slot, node);
        },
        ImportedName::Namespace { members: Some(members) } => {
            let names = members.list();
            assert forall|i: int| 0 <= i < names.len() implies w.knows(#[trigger] names[i]) by {
                assert(members@.contains(names[i]));
                assert(import_mentions(imported, names[i]));
            }
            member_search_keeps(w, types, path, names, names.len());
            let i = choose|i: int| 0 <= i < names.len() && names[i] == asked.1;
            let after = w.members(types, path, names, names.len()).1;
            assert(after.contains((path, names[i])));
            closed_holds_reached(passes(w, types), after, asked, slot);
        },
        ImportedName::Namespace { members: None } => {
            everything_is_found(w, types, path, asked, slot, node);
        },
    }
}

/// Everything that a module exports: the declarations behind its exports and behind those of the
/// modules that it passes on whole.
pub proof fn everything_is_found(
    w: World,
    types: bool,
    path: Path,
    asked: Slot,
    slot: Slot,
    node: NodeModel,
)
    requires
        w.modules.dom().finite(),
        names_export(w, types, asked),
        reaches(passes_whole(w, types), path, asked.0),
        reaches(passes(w, types), asked, slot),
        declares(w, types, slot, node),
    ensures
        w.everything(types, path).contains(node),
{
    assert(w.slots().difference(Set::<Slot>::empty()) =~= w.slots());
    let p = choose|p: Seq<Path>| walk_between(passes_whole(w, types), p, path, asked.0);
    whole_search_visits(w, types, p, asked, Set::empty(), Set::empty(), w.depth());
    whole_search_keeps(w, types, path, Set::empty(), Set::empty(), w.depth());
    let after = w.all_exports(types, path, Set::empty(), Set::empty(), w.depth()).1;
    closed_holds_reached(passes(w, types), after, asked, slot);
}

/// One export of a module, or all of them.
pub type Part = (Path, Option<Text>);

/// Entry `i` of the re-exports of a module passes `b` on under the name of `a`: an export of
/// another module, or all exports of one.
pub open spec fn hands_on_at(w: World, types: bool, a: Slot, b: Part, i: int) -> bool {
    let m = w.modules[a.0];
    let list = if types {
        m.type_re_exports@
    } else {
        m.re_exports@
    };
    &&& w.modules.dom().contains(a.0)
    &&& 0 <= i < list.len()
    &&& list[i].exported@ == a.1
    &&& w.resolve(a.0, list[i].source@) == Some(b.0)
    &&& match list[i].imported {
        ImportedName::Named(name) => b.1 == Some(name@),
        ImportedName::Namespace { members: _ } => b.1 is None,
    }
}

/// The ways in which an export may come from elsewhere: by a re-export of that name, or, for a
/// name other than `default` that the module does not declare itself, by passing another module
/// on whole. All exports of a module come from each of its names and from the modules that it
/// passes on whole.
pub open spec fn may_lead(w: World, types: bool) -> spec_fn(Part, Part) -> bool {
    |a: Part, b: Part|
        match a.1 {
            Some(name) => {
                ||| exists|i: int| #[trigger] hands_on_at(w, types, (a.0, name), b, i)
                ||| {
                    &&& b.1 == a.1
                    &&& name != "default"@
                    &&& forall|node: NodeModel| !#[trigger] declares(w, types, (a.0, name), node)
                    &&& passes_whole(w, types)(a.0, b.0)
                }
            },
            None => match b.1 {
                Some(name) => b.0 == a.0 && names_export(w, types, (a.0, name)),
                None => passes_whole(w, types)(a.0, b.0),
            },
        }
}

/// A declaration is the origin of an export, or of all exports, of a module.
pub open spec fn is_origin(w: World, types: bool, part: Part, node: NodeModel) -> bool {
    exists|slot: Slot| #[trigger]
        declares(w, types, slot, node) && reaches(
            may_lead(w, types),
            part,
            (slot.0, Some(slot.1)),
        )
}

proof fn origins_are_handed_on(w: World, types: bool, a: Part, b: Part, node: NodeModel)
    requires
        may_lead(w, types)(a, b),
        is_origin(w, types, b, node),
    ensures
        is_origin(w, types, a, node),
{
    let r = may_lead(w, types);
    let slot = choose|slot: Slot| #[trigger]
        declares(w, types, slot, node) && reaches(r, b, (slot.0, Some(slot.1)));
    assert(walk_between(r, seq![a, b], a, b));
    reaches_trans(r, a, b, (slot.0, Some(slot.1)));
}

/// A declaration is behind an export by what the module declares or re-exports under its name.
pub open spec fn is_origin_by_name(w: World, types: bool, slot: Slot, node: NodeModel) -> bool {
    ||| declares(w, types, slot, node)
    ||| exists|b: Part, i: int| #[trigger]
        hands_on_at(w, types, slot, b, i) && is_origin(w, types, b, node)
}

proof fn named_origins_are_origins(w: World, types: bool, slot: Slot, node: NodeModel)
    requires
        is_origin_by_name(w, types, slot, node),
    ensures
        is_origin(w, types, (slot.0, Some(slot.1)), node),
{
    let part: Part = (slot.0, Some(slot.1));
    if declares(w, types, slot, node) {
        reaches_self(may_lead(w, types), part);
    } else {
        let (b, i) = choose|b: Part, i: int| #[trigger]
            hands_on_at(w, types, slot, b, i) && is_origin(w, types, b, node);
        assert(may_lead(w, types)(part, b));
        origins_are_handed_on(w, types, part, b, node);
    }
}

proof fn found_has_origin(
    w: World,
    types: bool,
    path: Path,
    name: Text,
    visited: Set<Slot>,
    depth: nat,
    node: NodeModel,
)
    requires
        w.modules.dom().finite(),
        w.exports_of(types, path, name, visited, depth).0.contains(node),
    ensures
        is_origin(w, types, (path, Some(name)), node),
    decreases depth, 0nat, 0nat,
{
    let n = re_exports_of(w.modules[path], types).len();
    let start = visited.insert((path, name));
    let less = (depth - 1) as nat;
    let (first, seen) = w.through_re_exports(types, path, name, n, start, less);
    if first.contains(node) {
        re_exported_has_origin(w, types, path, name, n, start, less, node);
        named_origins_are_origins(w, types, (path, name), node);
    } else {
        own_is_found(w, types, path, name, n, start, less);
        own_exports_are_declared(w, types, path, name);
        assert forall|x: NodeModel| !#[trigger] declares(w, types, (path, name), x) by {
            if declares(w, types, (path, name), x) {
                assert(first.contains(x));
            }
        }
        let k = stars_of(w.modules[path], types).len();
        starred_has_origin(w, types, path, name, k, seen, less, node);
    }
}

proof fn own_is_found(
    w: World,
    types: bool,
    path: Path,
    name: Text,
    n: nat,
    visited: Set<Slot>,
    depth: nat,
)
    requires
        w.modules.dom().finite(),
    ensures
        w.own_export(types, path, name).subset_of(
            w.through_re_exports(types, path, name, n, visited, depth).0,
        ),
    decreases n,
{
    if n > 0 {
        own_is_found(w, types, path, name, (n - 1) as nat, visited, depth);
    }
}

proof fn re_exported_has_origin(
    w: World,
    types: bool,
    path: Path,
    name: Text,
    n: nat,
    visited: Set<Slot>,
    depth: nat,
    node: NodeModel,
)
    requires
        w.modules.dom().finite(),
        w.modules.dom().contains(path),
        n <= re_exports_of(w.modules[path], types).len(),
        w.through_re_exports(types, path, name, n, visited, depth).0.contains(node),
    ensures
        is_origin_by_name(w, types, (path, name), node),
    decreases depth, 2 * w.modules.dom().len() + 4, n,
{
    if n == 0 {
        own_exports_are_declared(w, types, path, name);
    } else {
        let (found, seen) = w.through_re_exports(types, path, name, (n - 1) as nat, visited, depth);
        let entry = re_exports_of(w.modules[path], types)[n - 1];
        if found.contains(node) {
            re_exported_has_origin(w, types, path, name, (n - 1) as nat, visited, depth, node);
        } else {
            let next = w.resolve(path, entry.source@)->0;
            match entry.imported {
                ImportedName::Named(inner) => {
                    let b: Part = (next, Some(inner@));
                    found_has_origin(w, types, next, inner@, seen, depth, node);
                    assert(hands_on_at(w, types, (path, name), b, n - 1));
                },
                ImportedName::Namespace { members: _ } => {
                    let b: Part = (next, None);
                    assert(w.modules.dom().difference(Set::empty()) =~= w.modules.dom());
                    whole_has_origin(w, types, next, seen, Set::empty(), depth, node);
                    assert(hands_on_at(w, types, (path, name), b, n - 1));
                },
            }
        }
    }
}

proof fn starred_has_origin(
    w: World,
    types: bool,
    path: Path,
    name: Text,
    n: nat,
    visited: Set<Slot>,
    depth: nat,
    node: NodeModel,
)
    requires
        w.modules.dom().finite(),
        w.modules.dom().contains(path),
        name != "default"@,
        forall|x: NodeModel| !#[trigger] declares(w, types, (path, name), x),
        n <= stars_of(w.modules[path], types).len(),
        w.through_stars(types, path, name, n, visited, depth).0.contains(node),
    ensures
        is_origin(w, types, (path, Some(name)), node),
    decreases depth, 2 * w.modules.dom().len() + 4, n,
{
    let (found, seen) = w.through_stars(types, path, name, (n - 1) as nat, visited, depth);
    if found.contains(node) {
        starred_has_origin(w, types, path, name, (n - 1) as nat, visited, depth, node);
    } else {
        let next = w.resolve(path, stars_of(w.modules[path], types)[n - 1]@)->0;
        found_has_origin(w, types, next, name, seen, depth, node);
        let i: int = n - 1;
        assert(stars_at(w, types, path, next, i));
        assert(passes_whole(w, types)(path, next));
        assert(may_lead(w, types)((path, Some(name)), (next, Some(name))));
        origins_are_handed_on(w, types, (path, Some(name)), (next, Some(name)), node);
    }
}

proof fn whole_has_origin(
    w: World,
    types: bool,
    path: Path,
    visited: Set<Slot>,
    trail: Set<Path>,
    depth: nat,
    node: NodeModel,
)
    requires
        w.modules.dom().finite(),
        w.all_exports(types, path, visited, trail, depth).0.contains(node),
    ensures
        is_origin(w, types, (path, None), node),
    decreases depth, 2 * w.modules.dom().difference(trail).len() + 2, 0nat,
{
    difference_shrinks(w.modules.dom(), trail, path);
    let k = stars_of(w.modules[path], types).len();
    passed_on_has_origin(w, types, path, k, visited, trail.insert(path), depth, node);
}

proof fn local_has_origin(
    w: World,
    types: bool,
    path: Path,
    n: nat,
    visited: Set<Slot>,
    depth: nat,
    node: NodeModel,
)
    requires
        w.modules.dom().finite(),
        w.modules.dom().contains(path),
        n <= local_names(w.modules[path], types).len(),
        w.all_locals(types, path, n, visited, depth).0.contains(node),
    ensures
        is_origin(w, types, (path, None), node),
    decreases depth, 1nat, n,
{
    let m = w.modules[path];
    let (found, seen) = w.all_locals(types, path, (n - 1) as nat, visited, depth);
    if found.contains(node) {
        local_has_origin(w, types, path, (n - 1) as nat, visited, depth, node);
    } else {
        let name = local_names(m, types)[n - 1];
        found_has_origin(w, types, path, name, seen, depth, node);
        m.local_exports.dom_is_finite();
        m.type_local_exports.dom_is_finite();
        assert(local_names(m, types).to_set().contains(name));
        assert(names_export(w, types, (path, name)));
        origins_are_handed_on(w, types, (path, None), (path, Some(name)), node);
    }
}

proof fn passed_has_origin(
    w: World,
    types: bool,
    path: Path,
    n: nat,
    visited: Set<Slot>,
    depth: nat,
    node: NodeModel,
)
    requires
        w.modules.dom().finite(),
        w.modules.dom().contains(path),
        n <= re_exports_of(w.modules[path], types).len(),
        w.all_re_exports(types, path, n, visited, depth).0.contains(node),
    ensures
        is_origin(w, types, (path, None), node),
    decreases depth, 2nat, n,
{
    let m = w.modules[path];
    if n == 0 {
        local_has_origin(w, types, path, local_names(m, types).len(), visited, depth, node);
    } else {
        let (found, seen) = w.all_re_exports(types, path, (n - 1) as nat, visited, depth);
        if found.contains(node) {
            passed_has_origin(w, types, path, (n - 1) as nat, visited, depth, node);
        } else {
            let name = re_exports_of(m, types)[n - 1].exported@;
            found_has_origin(w, types, path, name, seen, depth, node);
            assert(names_export(w, types, (path, name)));
            origins_are_handed_on(w, types, (path, None), (path, Some(name)), node);
        }
    }
}

proof fn passed_on_has_origin(
    w: World,
    types: bool,
    path: Path,
    n: nat,
    visited: Set<Slot>,
    trail: Set<Path>,
    depth: nat,
    node: NodeModel,
)
    requires
        w.modules.dom().finite(),
        w.modules.dom().contains(path),
        n <= stars_of(w.modules[path], types).len(),
        w.passed_on_whole(types, path, n, visited, trail, depth).0.contains(node),
    ensures
        is_origin(w, types, (path, None), node),
    decreases depth, 2 * w.modules.dom().difference(trail).len() + 3, n,
{
    let m = w.modules[path];
    if n == 0 {
        passed_has_origin(w, types, path, re_exports_of(m, types).len(), visited, depth, node);
    } else {
        let (found, seen) = w.passed_on_whole(types, path, (n - 1) as nat, visited, trail, depth);
        if found.contains(node) {
            passed_on_has_origin(w, types, path, (n - 1) as nat, visited, trail, depth, node);
        } else {
            let next = w.resolve(path, stars_of(m, types)[n - 1]@)->0;
            whole_has_origin(w, types, next, seen, trail, depth, node);
            let i: int = n - 1;
            assert(stars_at(w, types, path, next, i));
            assert(passes_whole(w, types)(path, next));
            assert(may_lead(w, types)((path, None), (next, None)));
            origins_are_handed_on(w, types, (path, None), (next, None), node);
        }
    }
}

proof fn member_has_origin(
    w: World,
    types: bool,
    path: Path,
    names: Seq<Text>,
    n: nat,
    node: NodeModel,
)
    requires
        w.modules.dom().finite(),
        n <= names.len(),
        w.members(types, path, names, n).0.contains(node),
    ensures
        exists|i: int| 0 <= i < n && is_origin(w, types, (path, Some(#[trigger] names[i])), node),
    decreases n,
{
    let (found, seen) = w.members(types, path, names, (n - 1) as nat);
    if found.contains(node) {
        member_has_origin(w, types, path, names, (n - 1) as nat, node);
    } else {
        found_has_origin(w, types, path, names[n - 1], seen, w.depth(), node);
    }
}

/// What an import asks of a module: one export, one of several, or all.
pub open spec fn asks_for_part(path: Path, imported: ImportedName, part: Part) -> bool {
    match imported {
        ImportedName::Named(name) => part == (path, Some(name@)),
        ImportedName::Namespace { members: Some(members) } => part.0 == path && part.1 is Some
            && members@.contains(part.1->0),
        ImportedName::Namespace { members: None } => part == (path, None::<Text>),
    }
}

/// An import takes nothing but declarations that what it asks for comes from.
pub proof fn imports_take_nothing_else(
    w: World,
    types: bool,
    path: Path,
    imported: ImportedName,
    node: NodeModel,
)
    requires
        w.modules.dom().finite(),
        w.taken(types, path, imported).contains(node),
    ensures
        exists|part: Part| #[trigger]
            asks_for_part(path, imported, part) && is_origin(w, types, part, node),
{
    match imported {
        ImportedName::Named(name) => {
            found_has_origin(w, types, path, name@, Set::empty(), w.depth(), node);
            assert(asks_for_part(path, imported, (path, Some(name@))));
        },
        ImportedName::Namespace { members: Some(members) } => {
            let names = members.list();
            member_has_origin(w, types, path, names, names.len(), node);
            let i = choose|i: int|
                0 <= i < names.len() && is_origin(w, types, (path, Some(#[trigger] names[i])), node);
            assert(members@.contains(names[i]));
            assert(asks_for_part(path, imported, (path, Some(names[i]))));
        },
        ImportedName::Namespace { members: None } => {
            whole_has_origin(w, types, path, Set::empty(), Set::empty(), w.depth(), node);
            assert(asks_for_part(path, imported, (path, None)));
        },
    }
}

/// A `default` export never comes from a module that is passed on whole: where a module neither
/// declares nor re-exports it, there is none.
pub proof fn default_exports_are_not_passed_on(w: World, types: bool, path: Path)
    requires
        w.modules.dom().finite(),
        is_bare(w, types, (path, "default"@)),
    ensures
        w.exports(types, path, "default"@) == Set::<NodeModel>::empty(),
{
    let name = "default"@;
    assert forall|node: NodeModel| !w.exports(types, path, name).contains(node) by {
        if w.exports(types, path, name).contains(node) {
            found_has_origin(w, types, path, name, Set::empty(), w.depth(), node);
            let slot = choose|slot: Slot| #[trigger]
                declares(w, types, slot, node) && reaches(
                    may_lead(w, types),
                    (path, Some(name)),
                    (slot.0, Some(slot.1)),
                );
            let p = choose|p: Seq<Part>|
                walk_between(may_lead(w, types), p, (path, Some(name)), (slot.0, Some(slot.1)));
            if p.len() > 1 {
                assert(may_lead(w, types)(p[0], p[0int + 1]));
                let i = choose|i: int| #[trigger] hands_on_at(w, types, (path, name), p[0int + 1], i);
            }
        }
    }
}

/// What a module declares or re-exports under a name hides what it passes on whole: where one of
/// the two leads to a declaration, every declaration behind the export comes from them.
pub proof fn named_exports_hide_stars(
    w: World,
    types: bool,
    slot: Slot,
    next: Slot,
    node: NodeModel,
    other: NodeModel,
)
    requires
        w.modules.dom().finite(),
        w.knows(slot.1),
        declares(w, types, next, node),
        next == slot || exists|i: int| #[trigger] re_exports_at(w, types, slot, next, i),
        w.exports(types, slot.0, slot.1).contains(other),
    ensures
        is_origin_by_name(w, types, slot, other),
{
    let (path, name) = slot;
    let none = Set::<Slot>::empty();
    assert(w.slots().difference(none) =~= w.slots());
    assert(w.slots().contains(slot));
    w.visiting_lowers(none, slot, none.insert(slot));
    let n = re_exports_of(w.modules[path], types).len();
    let start = none.insert(slot);
    let less = (w.depth() - 1) as nat;
    re_exports_keep(w, types, path, name, n, start, less);
    own_exports_are_declared(w, types, path, name);
    let found = w.through_re_exports(types, path, name, n, start, less).0;
    assert(found.contains(node));
    re_exported_has_origin(w, types, path, name, n, start, less, other);
}

} // verus!
