//! Moving the files of a graph from one directory to another.
use vstd::prelude::*;

use crate::collections::{push_to_set, relocated, KeyMap, KeySet};
use crate::diagnostics::Diagnostic;
use crate::graph::links::{EdgeMap, Finding};
use crate::graph::node::{Node, NodeModel};
use crate::graph::resolve::WorkspacePackage;
use crate::graph::targets::{is_target_file, target_file};
use crate::order::{models, Key};
use crate::parser::{ParsedModule, SourceLocation};
use crate::path::{joined_path, FilePath};

verus! {

/// A path below `from` moved below `to`; others, and the file of the targets, stay.
pub open spec fn moved(
    path: Seq<Seq<char>>,
    from: Seq<Seq<char>>,
    to: Seq<Seq<char>>,
) -> Seq<Seq<char>> {
    if path != target_file() && from.is_prefix_of(path) {
        joined_path(to, path.skip(from.len() as int))
    } else {
        path
    }
}

pub open spec fn moved_node(n: NodeModel, from: Seq<Seq<char>>, to: Seq<Seq<char>>) -> NodeModel {
    (moved(n.0, from, to), n.1)
}

pub open spec fn move_path(from: Seq<Seq<char>>, to: Seq<Seq<char>>) -> spec_fn(Seq<Seq<char>>) -> Seq<
    Seq<char>,
> {
    |p: Seq<Seq<char>>| moved(p, from, to)
}

pub open spec fn move_node(from: Seq<Seq<char>>, to: Seq<Seq<char>>) -> spec_fn(NodeModel) -> NodeModel {
    |n: NodeModel| moved_node(n, from, to)
}

pub open spec fn move_pair(from: Seq<Seq<char>>, to: Seq<Seq<char>>) -> spec_fn(
    (NodeModel, NodeModel),
) -> (NodeModel, NodeModel) {
    |e: (NodeModel, NodeModel)| (moved_node(e.0, from, to), moved_node(e.1, from, to))
}

/// A map to sets with the sets as mathematical values.
pub open spec fn deep(m: EdgeMap) -> Map<NodeModel, Set<NodeModel>> {
    m@.map_values(|s: KeySet<Node>| s@)
}

/// The same with the members of the sets moved.
pub open spec fn moved_targets(
    m: EdgeMap,
    from: Seq<Seq<char>>,
    to: Seq<Seq<char>>,
) -> Map<NodeModel, Set<NodeModel>> {
    m@.map_values(|s: KeySet<Node>| s@.map(move_node(from, to)))
}

pub(crate) fn remap_path(path: &FilePath, from: &FilePath, to: &FilePath) -> (r: FilePath)
    ensures
        r@ == moved(path@, from@, to@),
{
    if is_target_file(path) {
        return path.dup();
    }
    match path.strip_prefix(from) {
        Some(rest) => to.join(&rest),
        None => path.dup(),
    }
}

fn remap_node(node: &Node, from: &FilePath, to: &FilePath) -> (r: Node)
    ensures
        r@ == moved_node(node@, from@, to@),
{
    Node { file: remap_path(&node.file, from, to), symbol: node.symbol.clone() }
}

fn remap_nodes(nodes: &KeySet<Node>, from: &FilePath, to: &FilePath) -> (r: KeySet<Node>)
    ensures
        r@ == nodes@.map(move_node(from@, to@)),
{
    let ghost f = move_node(from@, to@);
    let ghost list = nodes.list();
    let n = nodes.len();
    let mut out: KeySet<Node> = KeySet::new();
    let mut i: usize = 0;
    assert(out@ =~= list.take(0).to_set().map(f));
    while i < n
        invariant
            i <= n,
            n == list.len(),
            list == nodes.list(),
            f == move_node(from@, to@),
            out@ == list.take(i as int).to_set().map(f),
        decreases n - i,
    {
        let ghost before = out@;
        out.insert(remap_node(nodes.at(i), from, to));
        proof {
            let x = list[i as int];
            assert(list.take(i + 1) =~= list.take(i as int).push(x));
            push_to_set(list.take(i as int), x);
            let a = list.take(i as int).to_set();
            assert forall|y: NodeModel| a.insert(x).map(f).contains(y) == a.map(f).insert(f(x)).contains(y) by {
                if a.insert(x).map(f).contains(y) {
                    let z = choose|z: NodeModel| a.insert(x).contains(z) && f(z) == y;
                    if z != x {
                        assert(a.contains(z));
                    }
                }
                if a.map(f).contains(y) {
                    let z = choose|z: NodeModel| a.contains(z) && f(z) == y;
                    assert(a.insert(x).contains(z));
                }
                if y == f(x) {
                    assert(a.insert(x).contains(x));
                }
            }
            assert(out@ =~= list.take(i + 1).to_set().map(f));
        }
        i += 1;
    }
    assert(list.take(n as int) =~= list);
    out
}

/// Moves consumers and dependencies.
pub(crate) fn remap_edges(edges: &EdgeMap, from: &FilePath, to: &FilePath) -> (r: EdgeMap)
    ensures
        deep(r) == relocated(
            edges.keys(),
            moved_targets(*edges, from@, to@),
            move_node(from@, to@),
            edges.keys().len() as int,
        ),
{
    let ghost keys = edges.keys();
    let ghost vals = moved_targets(*edges, from@, to@);
    let ghost f = move_node(from@, to@);
    let n = edges.len();
    let mut out: EdgeMap = KeyMap::new();
    let mut i: usize = 0;
    assert(deep(out) =~= relocated(keys, vals, f, 0));
    while i < n
        invariant
            i <= n,
            n == keys.len(),
            keys == edges.keys(),
            vals == moved_targets(*edges, from@, to@),
            f == move_node(from@, to@),
            deep(out) == relocated(keys, vals, f, i as int),
        decreases n - i,
    {
        let ghost before = deep(out);
        let consumer = remap_node(edges.key_at(i), from, to);
        let targets = remap_nodes(edges.value_at(i), from, to);
        let ghost c = consumer@;
        let ghost t = targets@;
        out.insert(consumer, targets);
        assert(deep(out) =~= before.insert(c, t));
        i += 1;
    }
    out
}

pub(crate) fn remap_modules(
    modules: KeyMap<FilePath, ParsedModule>,
    from: &FilePath,
    to: &FilePath,
) -> (r: KeyMap<FilePath, ParsedModule>)
    ensures
        r@ == relocated(
            modules.keys(),
            modules@,
            move_path(from@, to@),
            modules.keys().len() as int,
        ),
{
    let ghost keys = modules.keys();
    let ghost vals = modules@;
    let ghost f = move_path(from@, to@);
    let (paths, values) = modules.into_parts();
    let ghost all = values@;
    let mut out: KeyMap<FilePath, ParsedModule> = KeyMap::new();
    let mut i: usize = 0;
    assert(out@ =~= relocated(keys, vals, f, 0));
    for module in it: values
        invariant
            it.seq() == all,
            i == it.index(),
            models(paths@) == keys,
            all.len() == keys.len(),
            f == move_path(from@, to@),
            forall|k: int| 0 <= k < keys.len() ==> #[trigger] all[k] == vals[keys[k]],
            out@ == relocated(keys, vals, f, i as int),
    {
        assert(all[i as int] == vals[keys[i as int]]);
        let path = remap_path(&paths[i], from, to);
        assert(path@ == f(keys[i as int]));
        out.insert(path, module);
        i += 1;
    }
    out
}

pub(crate) fn remap_typed(
    typed: &KeyMap<(Node, Node), SourceLocation>,
    from: &FilePath,
    to: &FilePath,
) -> (r: KeyMap<(Node, Node), SourceLocation>)
    ensures
        r@ == relocated(typed.keys(), typed@, move_pair(from@, to@), typed.keys().len() as int),
{
    let ghost keys = typed.keys();
    let ghost vals = typed@;
    let ghost f = move_pair(from@, to@);
    let n = typed.len();
    let mut out: KeyMap<(Node, Node), SourceLocation> = KeyMap::new();
    let mut i: usize = 0;
    assert(out@ =~= relocated(keys, vals, f, 0));
    while i < n
        invariant
            i <= n,
            n == keys.len(),
            keys == typed.keys(),
            vals == typed@,
            f == move_pair(from@, to@),
            out@ == relocated(keys, vals, f, i as int),
        decreases n - i,
    {
        let pair = typed.key_at(i);
        let key = (remap_node(&pair.0, from, to), remap_node(&pair.1, from, to));
        assert(key.model() == f(keys[i as int]));
        out.insert(key, *typed.value_at(i));
        i += 1;
    }
    out
}

/// A finding with its files moved.
pub open spec fn moved_finding(d: Finding, from: Seq<Seq<char>>, to: Seq<Seq<char>>) -> Finding {
    (
        d.0,
        (
            d.1.0,
            (
                d.1.1.0,
                (
                    match d.1.1.1.0 {
                        Some(p) => Some(moved(p, from, to)),
                        None => None,
                    },
                    d.1.1.1.1.map_values(move_path(from, to)),
                ),
            ),
        ),
    )
}

fn remap_paths(paths: &Vec<FilePath>, from: &FilePath, to: &FilePath) -> (r: Vec<FilePath>)
    ensures
        models(r@) == models(paths@).map_values(move_path(from@, to@)),
{
    let ghost all = models(paths@).map_values(move_path(from@, to@));
    let mut out: Vec<FilePath> = Vec::new();
    let mut i: usize = 0;
    while i < paths.len()
        invariant
            i <= paths.len(),
            all == models(paths@).map_values(move_path(from@, to@)),
            models(out@) =~= all.take(i as int),
        decreases paths.len() - i,
    {
        let ghost before = models(out@);
        let item = remap_path(&paths[i], from, to);
        out.push(item);
        assert(models(out@) =~= before.push(item@));
        i += 1;
    }
    assert(all.take(i as int) =~= all);
    out
}

pub(crate) fn remap_findings(found: &Vec<Diagnostic>, from: &FilePath, to: &FilePath) -> (r: Vec<
    Diagnostic,
>)
    ensures
        models(r@) == models(found@).map_values(|d: Finding| moved_finding(d, from@, to@)),
{
    let ghost g = |d: Finding| moved_finding(d, from@, to@);
    let ghost all = models(found@).map_values(g);
    let mut out: Vec<Diagnostic> = Vec::new();
    let mut i: usize = 0;
    while i < found.len()
        invariant
            i <= found.len(),
            g == (|d: Finding| moved_finding(d, from@, to@)),
            all == models(found@).map_values(g),
            models(out@) =~= all.take(i as int),
        decreases found.len() - i,
    {
        let ghost before = models(out@);
        let d = &found[i];
        let item = Diagnostic {
            code: d.code,
            severity: d.severity,
            message: d.message.clone(),
            path: match &d.path {
                Some(path) => Some(remap_path(path, from, to)),
                None => None,
            },
            members: remap_paths(&d.members, from, to),
        };
        assert(item.model() == g(d.model()));
        out.push(item);
        assert(models(out@) =~= before.push(item.model()));
        i += 1;
    }
    assert(all.take(i as int) =~= all);
    out
}

/// A package of the workspace with its paths moved.
pub open spec fn is_moved_package(
    a: WorkspacePackage,
    b: WorkspacePackage,
    from: Seq<Seq<char>>,
    to: Seq<Seq<char>>,
) -> bool {
    &&& b.name@ == a.name@
    &&& b.dir@ == moved(a.dir@, from, to)
    &&& b.entrypoint.model() == match a.entrypoint.model() {
        Some(p) => Some(moved(p, from, to)),
        None => None,
    }
    &&& b.exports@.dom() == a.exports@.dom()
    &&& forall|k: Seq<char>|
        a.exports@.dom().contains(k) ==> (#[trigger] b.exports@[k])@ == moved(
            a.exports@[k]@,
            from,
            to,
        )
}

fn remap_exports(exports: &KeyMap<String, FilePath>, from: &FilePath, to: &FilePath) -> (r: KeyMap<
    String,
    FilePath,
>)
    ensures
        r@.dom() == exports@.dom(),
        forall|k: Seq<char>|
            exports@.dom().contains(k) ==> (#[trigger] r@[k])@ == moved(exports@[k]@, from@, to@),
{
    let ghost keys = exports.keys();
    let n = exports.len();
    let mut out: KeyMap<String, FilePath> = KeyMap::new();
    let mut i: usize = 0;
    while i < n
        invariant
            i <= n,
            n == keys.len(),
            keys == exports.keys(),
            out@.dom() =~= keys.take(i as int).to_set(),
            forall|k: Seq<char>|
                out@.dom().contains(k) ==> (#[trigger] out@[k])@ == moved(exports@[k]@, from@, to@),
        decreases n - i,
    {
        out.insert(exports.key_at(i).clone(), remap_path(exports.value_at(i), from, to));
        proof {
            assert(keys.take(i + 1) =~= keys.take(i as int).push(keys[i as int]));
            push_to_set(keys.take(i as int), keys[i as int]);
        }
        i += 1;
    }
    assert(keys.take(n as int) =~= keys);
    out
}

pub(crate) fn remap_packages(packages: &Vec<WorkspacePackage>, from: &FilePath, to: &FilePath) -> (r: Vec<
    WorkspacePackage,
>)
    ensures
        r.len() == packages.len(),
        forall|i: int|
            0 <= i < packages.len() ==> is_moved_package(
                packages@[i],
                #[trigger] r@[i],
                from@,
                to@,
            ),
{
    let mut out: Vec<WorkspacePackage> = Vec::new();
    let mut i: usize = 0;
    while i < packages.len()
        invariant
            i <= packages.len(),
            out.len() == i,
            forall|k: int|
                0 <= k < i ==> is_moved_package(packages@[k], #[trigger] out@[k], from@, to@),
        decreases packages.len() - i,
    {
        let p = &packages[i];
        let item = WorkspacePackage {
            name: p.name.clone(),
            dir: remap_path(&p.dir, from, to),
            entrypoint: match &p.entrypoint {
                Some(path) => Some(remap_path(path, from, to)),
                None => None,
            },
            exports: remap_exports(&p.exports, from, to),
        };
        out.push(item);
        i += 1;
    }
    out
}

/// Moving from a directory to itself moves nothing.
pub proof fn moving_in_place_moves_nothing(path: Seq<Seq<char>>, root: Seq<Seq<char>>)
    requires
        root.len() > 0,
        forall|i: int| 1 <= i < path.len() ==> #[trigger] path[i] != "/"@ && path[i] != "."@,
    ensures
        moved(path, root, root) == path,
{
    if path != target_file() && root.is_prefix_of(path) {
        let rest = path.skip(root.len() as int);
        if rest.len() > 0 {
            assert(rest[0] == path[root.len() as int]);
        }
        assert(root =~= path.subrange(0, root.len() as int));
        assert(joined_path(root, rest) =~= path);
    }
}

} // verus!
