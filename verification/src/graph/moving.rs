//! A graph whose files were moved to another directory.
use vstd::prelude::*;

use crate::collections::relocated;
use crate::graph::links::{EdgeMap, Finding};
use crate::graph::model::DependencyGraph;
use crate::graph::node::NodeModel;
use crate::graph::remap::{
    deep, is_moved_package, move_node, move_pair, move_path, moved, moved_finding, moved_targets,
};
use crate::graph::resolve::WorkspacePackage;
use crate::graph::targets::target_file;
use crate::order::{models, Key};
use crate::path::joined_path;

verus! {

pub type Path = Seq<Seq<char>>;

/// `b` is `a` with its files moved; everything else stays.
pub open spec fn is_relocated(a: DependencyGraph, b: DependencyGraph, from: Path, to: Path) -> bool {
    &&& b.modules@ == relocated(
        a.modules.keys(),
        a.modules@,
        move_path(from, to),
        a.modules.keys().len() as int,
    )
    &&& deep(b.edges) == relocated(
        a.edges.keys(),
        moved_targets(a.edges, from, to),
        move_node(from, to),
        a.edges.keys().len() as int,
    )
    &&& deep(b.type_edges) == relocated(
        a.type_edges.keys(),
        moved_targets(a.type_edges, from, to),
        move_node(from, to),
        a.type_edges.keys().len() as int,
    )
    &&& b.typed_registry_edges@ == relocated(
        a.typed_registry_edges.keys(),
        a.typed_registry_edges@,
        move_pair(from, to),
        a.typed_registry_edges.keys().len() as int,
    )
    &&& models(b.diagnostics@) == models(a.diagnostics@).map_values(
        |d: Finding| moved_finding(d, from, to),
    )
    &&& b.workspace_packages@.len() == a.workspace_packages@.len()
    &&& forall|i: int|
        0 <= i < a.workspace_packages@.len() ==> is_moved_package(
            a.workspace_packages@[i],
            #[trigger] b.workspace_packages@[i],
            from,
            to,
        )
    &&& b.targets == a.targets
    &&& b.cache_stats == a.cache_stats
    &&& b.disk == a.disk
}

/// Two packages with the same name and paths.
pub open spec fn same_package(a: WorkspacePackage, b: WorkspacePackage) -> bool {
    &&& a.name@ == b.name@
    &&& a.dir@ == b.dir@
    &&& a.entrypoint.model() == b.entrypoint.model()
    &&& a.exports@.dom() == b.exports@.dom()
    &&& forall|k: Seq<char>|
        a.exports@.dom().contains(k) ==> (#[trigger] b.exports@[k])@ == a.exports@[k]@
}

/// Two graphs that hold the same.
pub open spec fn same_graph(a: DependencyGraph, b: DependencyGraph) -> bool {
    &&& b.modules@ == a.modules@
    &&& deep(b.edges) == deep(a.edges)
    &&& deep(b.type_edges) == deep(a.type_edges)
    &&& b.typed_registry_edges@ == a.typed_registry_edges@
    &&& models(b.diagnostics@) == models(a.diagnostics@)
    &&& b.workspace_packages@.len() == a.workspace_packages@.len()
    &&& forall|i: int|
        0 <= i < a.workspace_packages@.len() ==> same_package(
            a.workspace_packages@[i],
            #[trigger] b.workspace_packages@[i],
        )
    &&& b.targets == a.targets
    &&& b.cache_stats == a.cache_stats
    &&& b.disk == a.disk
}

/// A path has its `/` and `.` in front, if any.
pub open spec fn is_tidy(path: Path) -> bool {
    forall|i: int| 1 <= i < path.len() ==> #[trigger] path[i] != "/"@ && path[i] != "."@
}

/// A path that can be moved from one directory to another and back: it does not lie in the second
/// one yet, and it does not start with a `.` that gets lost below it.
pub open spec fn can_return(path: Path, from: Path, to: Path) -> bool {
    &&& is_tidy(path)
    &&& path == target_file() || !to.is_prefix_of(path)
    &&& from.len() > 0 || path.len() == 0 || path[0] != "."@
}

/// A path that comes from a package or from a finding.
pub open spec fn is_mentioned(g: DependencyGraph, path: Path) -> bool {
    ||| exists|i: int|
        0 <= i < g.workspace_packages@.len() && is_in_package(
            #[trigger] g.workspace_packages@[i],
            path,
        )
    ||| exists|i: int|
        0 <= i < g.diagnostics@.len() && is_in_finding(#[trigger] models(g.diagnostics@)[i], path)
}

pub open spec fn is_in_package(p: WorkspacePackage, path: Path) -> bool {
    ||| path == p.dir@
    ||| p.entrypoint.model() == Some(path)
    ||| exists|k: Seq<char>| #[trigger] p.exports@.dom().contains(k) && p.exports@[k]@ == path
}

pub open spec fn is_in_finding(d: Finding, path: Path) -> bool {
    d.1.1.1.0 == Some(path) || d.1.1.1.1.contains(path)
}

/// A node at one of the ends of an edge.
pub open spec fn is_linked(edges: EdgeMap, n: NodeModel) -> bool {
    edges@.dom().contains(n) || exists|c: NodeModel| #[trigger]
        edges@.dom().contains(c) && edges@[c]@.contains(n)
}

pub open spec fn is_typed(g: DependencyGraph, n: NodeModel) -> bool {
    exists|e: (NodeModel, NodeModel)| #[trigger]
        g.typed_registry_edges@.dom().contains(e) && (e.0 == n || e.1 == n)
}

pub open spec fn holds_node(g: DependencyGraph, n: NodeModel) -> bool {
    is_linked(g.edges, n) || is_linked(g.type_edges, n) || is_typed(g, n)
}

/// A path that a graph holds.
pub open spec fn holds_path(g: DependencyGraph, path: Path) -> bool {
    ||| g.modules@.dom().contains(path)
    ||| is_mentioned(g, path)
    ||| exists|n: NodeModel| n.0 == path && #[trigger] holds_node(g, n)
}

/// A path that is moved and moved back is where it was.
pub proof fn paths_come_back(path: Path, from: Path, to: Path)
    requires
        can_return(path, from, to),
        to != target_file(),
    ensures
        moved(moved(path, from, to), to, from) == path,
{
    if path != target_file() && from.is_prefix_of(path) {
        let rest = path.skip(from.len() as int);
        assert(from =~= path.subrange(0, from.len() as int));
        assert(from + rest =~= path);
        if rest.len() > 0 {
            assert(rest[0] == path[from.len() as int]);
        }
        if from.len() == 0 {
            assert(rest =~= path);
        }
        if to.len() == 0 {
            assert(path.subrange(0, 0) =~= to);
        }
        let there = joined_path(to, rest);
        if from.len() == 0 && rest.len() > 0 && rest[0] == "/"@ {
            assert(there == path);
        } else {
            assert(there == to + rest);
            if there == target_file() {
                assert(there.len() == 1);
                assert(rest.len() == 0);
                assert(to =~= there);
            }
            assert(there.subrange(0, to.len() as int) =~= to);
            assert(there.skip(to.len() as int) =~= rest);
            assert(joined_path(from, rest) =~= path);
        }
    }
}

proof fn relocated_holds<K, V>(keys: Seq<K>, m: Map<K, V>, f: spec_fn(K) -> K, n: int)
    requires
        0 <= n <= keys.len(),
        forall|i: int, j: int|
            0 <= i < keys.len() && 0 <= j < keys.len() && f(#[trigger] keys[i]) == f(
                #[trigger] keys[j],
            ) ==> keys[i] == keys[j],
    ensures
        forall|i: int|
            0 <= i < n ==> relocated(keys, m, f, n).dom().contains(f(#[trigger] keys[i]))
                && relocated(keys, m, f, n)[f(keys[i])] == m[keys[i]],
        forall|y: K| #[trigger]
            relocated(keys, m, f, n).dom().contains(y) ==> exists|i: int|
                0 <= i < n && f(#[trigger] keys[i]) == y,
    decreases n,
{
    if n > 0 {
        relocated_holds(keys, m, f, n - 1);
        let before = relocated(keys, m, f, n - 1);
        assert forall|i: int| 0 <= i < n implies relocated(keys, m, f, n).dom().contains(
            f(#[trigger] keys[i]),
        ) && relocated(keys, m, f, n)[f(keys[i])] == m[keys[i]] by {
            if f(keys[i]) == f(keys[n - 1]) {
                assert(keys[i] == keys[n - 1]);
            } else {
                assert(i < n - 1);
            }
        }
        assert forall|y: K| #[trigger] relocated(keys, m, f, n).dom().contains(y) implies exists|
            i: int,
        |
            0 <= i < n && f(#[trigger] keys[i]) == y by {
            if y != f(keys[n - 1]) {
                assert(before.dom().contains(y));
            }
        }
    }
}

/// A map whose keys are moved by `f` and then back by `g` has its keys again, each with what the
/// second move found beside the moved key.
proof fn relocated_twice<K, V>(
    keys: Seq<K>,
    m: Map<K, V>,
    f: spec_fn(K) -> K,
    there: Map<K, V>,
    keys2: Seq<K>,
    m2: Map<K, V>,
    g: spec_fn(K) -> K,
)
    requires
        forall|i: int| 0 <= i < keys.len() ==> g(f(#[trigger] keys[i])) == keys[i],
        there == relocated(keys, m, f, keys.len() as int),
        keys2.to_set() == there.dom(),
    ensures
        forall|k: K| #[trigger] keys.contains(k) ==> there.dom().contains(f(k)) && there[f(k)] == m[k],
        relocated(keys2, m2, g, keys2.len() as int).dom() == keys.to_set(),
        forall|k: K|
            keys.contains(k) ==> #[trigger] relocated(keys2, m2, g, keys2.len() as int)[k] == m2[f(k)],
{
    assert forall|i: int, j: int|
        0 <= i < keys.len() && 0 <= j < keys.len() && f(#[trigger] keys[i]) == f(#[trigger] keys[j])
        implies keys[i] == keys[j] by {
        assert(g(f(keys[i])) == keys[i] && g(f(keys[j])) == keys[j]);
    }
    relocated_holds(keys, m, f, keys.len() as int);
    assert forall|i: int|
        #![trigger keys2[i]]
        0 <= i < keys2.len() implies exists|k: int|
        0 <= k < keys.len() && f(#[trigger] keys[k]) == keys2[i] && g(keys2[i]) == keys[k] by {
        assert(keys2.to_set().contains(keys2[i]));
        assert(there.dom().contains(keys2[i]));
        let k = choose|k: int| 0 <= k < keys.len() && f(#[trigger] keys[k]) == keys2[i];
        assert(g(f(keys[k])) == keys[k]);
    }
    assert forall|i: int, j: int|
        0 <= i < keys2.len() && 0 <= j < keys2.len() && g(#[trigger] keys2[i]) == g(
            #[trigger] keys2[j],
        ) implies keys2[i] == keys2[j] by {
        let a = choose|k: int|
            0 <= k < keys.len() && f(#[trigger] keys[k]) == keys2[i] && g(keys2[i]) == keys[k];
        let b = choose|k: int|
            0 <= k < keys.len() && f(#[trigger] keys[k]) == keys2[j] && g(keys2[j]) == keys[k];
        assert(keys[a] == keys[b]);
    }
    relocated_holds(keys2, m2, g, keys2.len() as int);
    let back = relocated(keys2, m2, g, keys2.len() as int);
    assert forall|k: K| #[trigger] keys.contains(k) implies back.dom().contains(k) && back[k] == m2[f(k)] by {
        let i = choose|i: int| 0 <= i < keys.len() && keys[i] == k;
        assert(g(f(keys[i])) == keys[i]);
        assert(there.dom().contains(f(keys[i])));
        assert(keys2.to_set().contains(f(k)));
        let j = choose|j: int| 0 <= j < keys2.len() && keys2[j] == f(k);
        assert(g(keys2[j]) == k);
        assert(back.dom().contains(g(keys2[j])));
    }
    assert(back.dom() =~= keys.to_set()) by {
        assert forall|y: K| #[trigger] back.dom().contains(y) implies keys.contains(y) by {
            let j = choose|j: int| 0 <= j < keys2.len() && g(#[trigger] keys2[j]) == y;
            let k = choose|k: int|
                0 <= k < keys.len() && f(#[trigger] keys[k]) == keys2[j] && g(keys2[j]) == keys[k];
            assert(keys[k] == y);
        }
    }
}

proof fn edges_come_back(a: EdgeMap, b: EdgeMap, c: EdgeMap, from: Path, to: Path)
    requires
        to != target_file(),
        forall|n: NodeModel| #[trigger] is_linked(a, n) ==> can_return(n.0, from, to),
        deep(b) == relocated(
            a.keys(),
            moved_targets(a, from, to),
            move_node(from, to),
            a.keys().len() as int,
        ),
        deep(c) == relocated(
            b.keys(),
            moved_targets(b, to, from),
            move_node(to, from),
            b.keys().len() as int,
        ),
    ensures
        deep(c) == deep(a),
{
    let f = move_node(from, to);
    let g = move_node(to, from);
    a.dom_is_finite();
    b.dom_is_finite();
    assert(deep(b).dom() =~= b@.dom());
    assert forall|n: NodeModel| #[trigger] is_linked(a, n) implies g(f(n)) == n by {
        paths_come_back(n.0, from, to);
    }
    assert forall|i: int| 0 <= i < a.keys().len() implies g(f(#[trigger] a.keys()[i])) == a.keys()[i] by {
        assert(a.keys().to_set().contains(a.keys()[i]));
        assert(is_linked(a, a.keys()[i]));
    }
    relocated_twice(
        a.keys(),
        moved_targets(a, from, to),
        f,
        deep(b),
        b.keys(),
        moved_targets(b, to, from),
        g,
    );
    assert(deep(c).dom() =~= deep(a).dom());
    assert forall|k: NodeModel| #[trigger] deep(a).dom().contains(k) implies deep(c)[k] == deep(a)[k] by {
        assert(a.keys().to_set().contains(k));
        assert(a.keys().contains(k));
        let s = a@[k]@;
        assert(deep(b)[f(k)] == s.map(f));
        assert(moved_targets(b, to, from)[f(k)] == s.map(f).map(g));
        assert(s.map(f).map(g) =~= s) by {
            assert forall|n: NodeModel| s.contains(n) implies #[trigger] s.map(f).map(g).contains(n) by {
                assert(is_linked(a, n));
                assert(s.map(f).contains(f(n)));
                assert(g(f(n)) == n);
            }
            assert forall|n: NodeModel| #[trigger] s.map(f).map(g).contains(n) implies s.contains(n) by {
                let y = choose|y: NodeModel| s.map(f).contains(y) && g(y) == n;
                let x = choose|x: NodeModel| s.contains(x) && f(x) == y;
                assert(is_linked(a, x));
            }
        }
    }
    assert(deep(c) =~= deep(a));
}

proof fn findings_come_back(d: Finding, from: Path, to: Path)
    requires
        to != target_file(),
        forall|p: Path| #[trigger] is_in_finding(d, p) ==> can_return(p, from, to),
    ensures
        moved_finding(moved_finding(d, from, to), to, from) == d,
{
    match d.1.1.1.0 {
        Some(p) => {
            assert(is_in_finding(d, p));
            paths_come_back(p, from, to);
        },
        None => {},
    }
    let list = d.1.1.1.1;
    let back = list.map_values(move_path(from, to)).map_values(move_path(to, from));
    assert forall|i: int| 0 <= i < list.len() implies back[i] == list[i] by {
        assert(list.contains(list[i]));
        assert(is_in_finding(d, list[i]));
        paths_come_back(list[i], from, to);
    }
    assert(back =~= list);
}

proof fn packages_come_back(
    a: WorkspacePackage,
    b: WorkspacePackage,
    c: WorkspacePackage,
    from: Path,
    to: Path,
)
    requires
        to != target_file(),
        is_moved_package(a, b, from, to),
        is_moved_package(b, c, to, from),
        forall|p: Path| #[trigger] is_in_package(a, p) ==> can_return(p, from, to),
    ensures
        same_package(a, c),
{
    assert(is_in_package(a, a.dir@));
    paths_come_back(a.dir@, from, to);
    match a.entrypoint.model() {
        Some(p) => {
            assert(is_in_package(a, p));
            paths_come_back(p, from, to);
        },
        None => {},
    }
    assert forall|k: Seq<char>| a.exports@.dom().contains(k) implies (#[trigger] c.exports@[k])@
        == a.exports@[k]@ by {
        assert(is_in_package(a, a.exports@[k]@));
        paths_come_back(a.exports@[k]@, from, to);
        assert(b.exports@[k]@ == moved(a.exports@[k]@, from, to));
    }
}

/// A graph that is moved to a directory in which it had nothing, and then moved back, holds what
/// it held. Each of its paths can return, and the directory is not the path under which targets
/// stand.
pub proof fn moving_back_restores(
    a: DependencyGraph,
    b: DependencyGraph,
    c: DependencyGraph,
    from: Path,
    to: Path,
)
    requires
        to != target_file(),
        forall|p: Path| #[trigger] holds_path(a, p) ==> can_return(p, from, to),
        is_relocated(a, b, from, to),
        is_relocated(b, c, to, from),
    ensures
        same_graph(a, c),
{
    let f = move_path(from, to);
    let g = move_path(to, from);
    a.modules.dom_is_finite();
    b.modules.dom_is_finite();
    assert forall|i: int| 0 <= i < a.modules.keys().len() implies g(
        f(#[trigger] a.modules.keys()[i]),
    ) == a.modules.keys()[i] by {
        let p = a.modules.keys()[i];
        assert(a.modules.keys().to_set().contains(p));
        assert(holds_path(a, p));
        paths_come_back(p, from, to);
    }
    relocated_twice(a.modules.keys(), a.modules@, f, b.modules@, b.modules.keys(), b.modules@, g);
    assert(c.modules@ =~= a.modules@) by {
        assert forall|p: Path| #[trigger] a.modules@.dom().contains(p) implies c.modules@[p]
            == a.modules@[p] by {
            assert(a.modules.keys().to_set().contains(p));
            assert(a.modules.keys().contains(p));
        }
    }
    assert forall|n: NodeModel| #[trigger] is_linked(a.edges, n) implies can_return(n.0, from, to) by {
        assert(holds_node(a, n));
        assert(holds_path(a, n.0));
    }
    edges_come_back(a.edges, b.edges, c.edges, from, to);
    assert forall|n: NodeModel| #[trigger] is_linked(a.type_edges, n) implies can_return(
        n.0,
        from,
        to,
    ) by {
        assert(holds_node(a, n));
        assert(holds_path(a, n.0));
    }
    edges_come_back(a.type_edges, b.type_edges, c.type_edges, from, to);
    let pf = move_pair(from, to);
    let pg = move_pair(to, from);
    let typed = a.typed_registry_edges;
    typed.dom_is_finite();
    b.typed_registry_edges.dom_is_finite();
    assert forall|i: int| 0 <= i < typed.keys().len() implies pg(pf(#[trigger] typed.keys()[i]))
        == typed.keys()[i] by {
        let e = typed.keys()[i];
        assert(typed.keys().to_set().contains(e));
        assert(typed@.dom().contains(e));
        assert(is_typed(a, e.0) && is_typed(a, e.1));
        assert(holds_node(a, e.0) && holds_node(a, e.1));
        assert(holds_path(a, e.0.0) && holds_path(a, e.1.0));
        paths_come_back(e.0.0, from, to);
        paths_come_back(e.1.0, from, to);
    }
    relocated_twice(
        typed.keys(),
        typed@,
        pf,
        b.typed_registry_edges@,
        b.typed_registry_edges.keys(),
        b.typed_registry_edges@,
        pg,
    );
    assert(c.typed_registry_edges@ =~= typed@) by {
        assert forall|e: (NodeModel, NodeModel)| #[trigger] typed@.dom().contains(e) implies
            c.typed_registry_edges@[e] == typed@[e] by {
            assert(typed.keys().to_set().contains(e));
            assert(typed.keys().contains(e));
        }
    }
    let found = models(a.diagnostics@);
    assert forall|i: int| 0 <= i < found.len() implies models(c.diagnostics@)[i] == found[i] by {
        assert forall|p: Path| #[trigger] is_in_finding(found[i], p) implies can_return(p, from, to) by {
            assert(is_in_finding(models(a.diagnostics@)[i], p));
            assert(is_mentioned(a, p));
            assert(holds_path(a, p));
        }
        findings_come_back(found[i], from, to);
    }
    assert(models(c.diagnostics@) =~= found);
    assert forall|i: int| 0 <= i < a.workspace_packages@.len() implies same_package(
        a.workspace_packages@[i],
        #[trigger] c.workspace_packages@[i],
    ) by {
        let one = a.workspace_packages@[i];
        let two = b.workspace_packages@[i];
        assert(is_moved_package(one, two, from, to));
        assert forall|p: Path| #[trigger] is_in_package(one, p) implies can_return(p, from, to) by {
            assert(is_in_package(a.workspace_packages@[i], p));
            assert(is_mentioned(a, p));
            assert(holds_path(a, p));
        }
        packages_come_back(one, two, c.workspace_packages@[i], from, to);
    }
}

} // verus!
