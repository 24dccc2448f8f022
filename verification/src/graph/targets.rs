//! Deployment targets and the findings about the graph as a whole.
use vstd::prelude::*;

use crate::collections::{
    push_to_set, union_over, union_over_all, union_over_next, union_over_none, KeySet,
};
use crate::diagnostics::{Diagnostic, Severity};
use crate::graph::links::{add_edges, edges_in, fan, finding, grows, Edge, EdgeMap, Finding};
use crate::graph::node::{Node, NodeModel};
use crate::graph::resolve::{normal, normalize_path, Scope, World};
use crate::order::{models, Key};
use crate::parser::{ParsedModule, MODULE_INIT};
use crate::path::{shown, FilePath};
use crate::text::{join3, same, starts_with};
use crate::workspace::Target;

verus! {

/// A deployment target and its node.
pub struct TargetNode {
    pub package: String,
    pub node: Node,
}

/// The file under which the nodes of targets stand.
pub open spec fn target_file() -> Seq<Seq<char>> {
    seq!["<target>"@]
}

pub open spec fn target_of(package: Seq<char>) -> NodeModel {
    (target_file(), package)
}

pub(crate) fn node_of_target(package: &str) -> (r: Node)
    ensures
        r@ == target_of(package@),
{
    let mut parts: Vec<crate::path::Part> = Vec::new();
    parts.push(crate::path::Part { text: "<target>".to_owned() });
    let file = FilePath { parts };
    assert(file@ =~= target_file());
    Node { file, symbol: package.to_owned() }
}

pub(crate) fn is_target_file(file: &FilePath) -> (r: bool)
    ensures
        r == (file@ == target_file()),
{
    let target = node_of_target("");
    file.same_as(&target.file)
}

/// A list of targets as pairs of a package and a node.
pub type TargetModel = (Seq<char>, NodeModel);

pub open spec fn target_models(list: Seq<TargetNode>) -> Seq<TargetModel> {
    list.map_values(|t: TargetNode| (t.package@, t.node@))
}

pub open spec fn has_target(list: Seq<TargetModel>, package: Seq<char>) -> bool {
    exists|i: int| 0 <= i < list.len() && (#[trigger] list[i]).0 == package
}

/// The list with a target for `package`.
pub open spec fn with_target(list: Seq<TargetModel>, package: Seq<char>) -> Seq<TargetModel> {
    if has_target(list, package) {
        list
    } else {
        list.push((package, target_of(package)))
    }
}

pub(crate) fn add_target(list: &mut Vec<TargetNode>, package: &str)
    ensures
        target_models(final(list)@) == with_target(target_models(old(list)@), package@),
{
    let ghost before = target_models(list@);
    let mut i: usize = 0;
    while i < list.len()
        invariant
            i <= list.len(),
            before == target_models(list@),
            forall|k: int| 0 <= k < i ==> (#[trigger] before[k]).0 != package@,
        decreases list.len() - i,
    {
        if same(list[i].package.as_str(), package) {
            assert(before[i as int].0 == package@);
            return;
        }
        i += 1;
    }
    let item = TargetNode { package: package.to_owned(), node: node_of_target(package) };
    let ghost added = (item.package@, item.node@);
    list.push(item);
    assert(target_models(list@) =~= before.push(added));
}

/// The finding about a target whose entrypoint is no known module.
pub open spec fn virtual_entrypoint(package: Seq<char>, entrypoint: Seq<Seq<char>>) -> Finding {
    finding(
        "MONORIPPLE_VIRTUAL_OR_GENERATED_ENTRYPOINT"@,
        Severity::Warning,
        "target `"@ + package + "` entrypoint `"@ + shown(entrypoint)
            + "` is not represented in the source graph"@,
        Some(entrypoint),
        Seq::empty(),
    )
}

/// Whether a finding says of the target `package` that its entrypoint is unknown.
pub open spec fn is_virtual_of(d: Finding, package: Seq<char>) -> bool {
    d.0 == "MONORIPPLE_VIRTUAL_OR_GENERATED_ENTRYPOINT"@ && ("target `"@ + package
        + "` "@).is_prefix_of(d.1.1.0)
}

/// The findings left once the roots of `package` are known.
pub open spec fn without_virtual(list: Seq<Finding>, package: Seq<char>) -> Seq<Finding> {
    list.filter(|d: Finding| !is_virtual_of(d, package))
}

proof fn filter_next<A>(s: Seq<A>, keep: spec_fn(A) -> bool, n: int)
    requires
        0 <= n < s.len(),
    ensures
        s.take(n + 1).filter(keep) == if keep(s[n]) {
            s.take(n).filter(keep).push(s[n])
        } else {
            s.take(n).filter(keep)
        },
{
    reveal(Seq::filter);
    assert(s.take(n + 1).drop_last() =~= s.take(n));
}

pub(crate) fn drop_virtual(list: &Vec<Diagnostic>, package: &str) -> (r: Vec<Diagnostic>)
    ensures
        models(r@) == without_virtual(models(list@), package@),
{
    let prefix = join3("target `", package, "` ");
    let ghost all = models(list@);
    let ghost keep = |d: Finding| !is_virtual_of(d, package@);
    let mut out: Vec<Diagnostic> = Vec::new();
    let mut i: usize = 0;
    proof {
        reveal(Seq::filter);
        assert(models(out@) =~= all.take(0).filter(keep));
    }
    while i < list.len()
        invariant
            i <= list.len(),
            all == models(list@),
            prefix@ == "target `"@ + package@ + "` "@,
            keep == (|d: Finding| !is_virtual_of(d, package@)),
            models(out@) == all.take(i as int).filter(keep),
        decreases list.len() - i,
    {
        proof {
            filter_next(all, keep, i as int);
        }
        let item = &list[i];
        if !same(item.code, "MONORIPPLE_VIRTUAL_OR_GENERATED_ENTRYPOINT") || !starts_with(
            item.message.as_str(),
            prefix.as_str(),
        ) {
            let ghost before = models(out@);
            let copy = item.dup();
            out.push(copy);
            assert(models(out@) =~= before.push(copy.model()));
        }
        i += 1;
    }
    assert(all.take(i as int) =~= all);
    out
}

impl World {
    /// The run-time symbols of a module other than its initialisation.
    pub open spec fn runtime_symbols(self, path: Seq<Seq<char>>) -> Set<NodeModel> {
        Set::new(
            |n: NodeModel|
                n.0 == path && n.1 != MODULE_INIT@ && self.modules[path].symbols@.dom().contains(n.1)
                    && self.modules[path].symbols@[n.1].runtime,
        )
    }

    /// What a target with this root includes: the initialisation of the module and its exports,
    /// or all its run-time symbols where it exports nothing.
    pub open spec fn root_targets(self, root: Seq<Seq<char>>) -> Set<NodeModel> {
        let all = self.everything(false, root);
        (if all == Set::<NodeModel>::empty() {
            self.runtime_symbols(root)
        } else {
            all
        }).insert((root, MODULE_INIT@))
    }

    /// The edges of a target to one of its roots, where that is a known module.
    pub open spec fn edges_to_root(self, package: Seq<char>, root: Seq<Seq<char>>) -> Set<Edge> {
        let path = normal(self.disk, root);
        if self.modules.dom().contains(path) {
            fan(target_of(package), self.root_targets(path))
        } else {
            Set::empty()
        }
    }

    pub open spec fn root_edges(self, package: Seq<char>) -> spec_fn(FilePath) -> Set<Edge> {
        |root: FilePath| self.edges_to_root(package, root@)
    }

    /// Whether the entrypoint of a target is a known module.
    pub open spec fn has_entrypoint(self, target: Target) -> bool {
        self.modules.dom().contains(normal(self.disk, target.entrypoint@))
    }

    pub open spec fn target_edges(self) -> spec_fn(Target) -> Set<Edge> {
        |target: Target|
            {
                let path = normal(self.disk, normal(self.disk, target.entrypoint@));
                if self.has_entrypoint(target) && self.modules.dom().contains(path) {
                    fan(target_of(target.package@), self.root_targets(path))
                } else {
                    Set::empty()
                }
            }
    }

    /// The targets and findings after the first `n` declared targets.
    pub open spec fn declared(
        self,
        targets: Seq<Target>,
        n: int,
        list: Seq<TargetModel>,
        found: Seq<Finding>,
    ) -> (Seq<TargetModel>, Seq<Finding>)
        decreases n,
    {
        if n <= 0 {
            (list, found)
        } else {
            let (before, earlier) = self.declared(targets, n - 1, list, found);
            let package = targets[n - 1].package@;
            if self.has_entrypoint(targets[n - 1]) {
                (with_target(before, package), without_virtual(earlier, package))
            } else {
                (
                    before.push((package, target_of(package))),
                    earlier.push(
                        virtual_entrypoint(package, normal(self.disk, targets[n - 1].entrypoint@)),
                    ),
                )
            }
        }
    }
}

impl<'a> Scope<'a> {
    fn runtime_symbols(&self, path: &FilePath, m: &ParsedModule) -> (r: KeySet<Node>)
        requires
            self@.modules.dom().contains(path@),
            self@.modules[path@] == *m,
        ensures
            r@ == self@.runtime_symbols(path@),
    {
        let mut out: KeySet<Node> = KeySet::new();
        let n = m.symbols.len();
        let ghost keys = m.symbols.keys();
        let ghost w = self@;
        let mut i: usize = 0;
        while i < n
            invariant
                i <= n,
                n == keys.len(),
                keys == m.symbols.keys(),
                w == self@,
                w.modules[path@] == *m,
                m.symbols@.dom() == keys.to_set(),
                forall|x: NodeModel|
                    #[trigger] out@.contains(x) <==> keys.take(i as int).contains(x.1)
                        && w.runtime_symbols(path@).contains(x),
            decreases n - i,
        {
            let name = m.symbols.key_at(i);
            let symbol = m.symbols.value_at(i);
            let ghost before = out@;
            let ghost added: NodeModel = (path@, name@);
            if !same(name.as_str(), MODULE_INIT) && symbol.runtime {
                out.insert(Node { file: path.dup(), symbol: name.clone() });
                assert(out@ == before.insert(added));
            }
            proof {
                assert(keys.take(i + 1) =~= keys.take(i as int).push(keys[i as int]));
                push_to_set(keys.take(i as int), keys[i as int]);
                assert forall|x: NodeModel|
                    #[trigger] out@.contains(x) <==> keys.take(i + 1).contains(x.1)
                        && w.runtime_symbols(path@).contains(x) by {
                    assert(keys.take(i + 1).contains(x.1) == keys.take(i + 1).to_set().contains(x.1));
                    assert(keys.take(i as int).contains(x.1) == keys.take(i as int).to_set().contains(
                        x.1,
                    ));
                    assert(before.contains(x) == (keys.take(i as int).contains(x.1)
                        && w.runtime_symbols(path@).contains(x)));
                }
            }
            i += 1;
        }
        proof {
            assert(keys.take(n as int) =~= keys);
            assert(out@ =~= w.runtime_symbols(path@));
        }
        out
    }

    fn root_targets(&self, root: &FilePath, m: &ParsedModule) -> (r: KeySet<Node>)
        requires
            self@.modules.dom().contains(root@),
            self@.modules[root@] == *m,
        ensures
            r@ == self@.root_targets(root@),
    {
        let all = self.everything(false, root);
        let mut out = if all.len() == 0 {
            self.runtime_symbols(root, m)
        } else {
            all
        };
        out.insert(Node { file: root.dup(), symbol: MODULE_INIT.to_owned() });
        out
    }

    /// Adds the edges of a target to one root.
    fn add_root(&self, package: &str, root: &FilePath, edges: &mut EdgeMap)
        ensures
            grows(*old(edges), *final(edges)),
            edges_in(*final(edges)) == edges_in(*old(edges)).union((self@.root_edges(package@))(*root)),
    {
        let ghost start = edges_in(*edges);
        let path = normalize_path(self.disk, root);
        match self.modules.get(&path) {
            Some(m) => {
                let targets = self.root_targets(&path, m);
                add_edges(edges, &node_of_target(package), &targets);
            },
            None => {
                assert(start =~= start.union((self@.root_edges(package@))(*root)));
            },
        }
    }

    /// Adds the edges of a target to its roots.
    pub(crate) fn add_roots(&self, package: &str, roots: &Vec<FilePath>, edges: &mut EdgeMap)
        ensures
            grows(*old(edges), *final(edges)),
            edges_in(*final(edges)) == edges_in(*old(edges)).union(
                union_over(roots@, self@.root_edges(package@)),
            ),
    {
        let ghost w = self@;
        let ghost start = edges_in(*edges);
        let ghost f = w.root_edges(package@);
        let n = roots.len();
        proof {
            union_over_none(roots@.take(0), f);
            assert(start.union(Set::empty()) =~= start);
        }
        let mut i: usize = 0;
        while i < n
            invariant
                i <= n,
                n == roots@.len(),
                w == self@,
                f == w.root_edges(package@),
                grows(*old(edges), *edges),
                edges_in(*edges) == start.union(union_over(roots@.take(i as int), f)),
            decreases n - i,
        {
            self.add_root(package, &roots[i], edges);
            proof {
                union_over_next(roots@, f, i as int);
                assert(edges_in(*edges) =~= start.union(union_over(roots@.take(i + 1), f)));
            }
            i += 1;
        }
        proof {
            union_over_all(roots@, f, n as int);
        }
    }

    /// Takes in the declared targets.
    pub(crate) fn link_targets(
        &self,
        targets: &Vec<Target>,
        edges: &mut EdgeMap,
        list: &mut Vec<TargetNode>,
        found: &mut Vec<Diagnostic>,
    )
        ensures
            grows(*old(edges), *final(edges)),
            edges_in(*final(edges)) == edges_in(*old(edges)).union(
                union_over(targets@, self@.target_edges()),
            ),
            (target_models(final(list)@), models(final(found)@)) == self@.declared(
                targets@,
                targets@.len() as int,
                target_models(old(list)@),
                models(old(found)@),
            ),
    {
        let ghost w = self@;
        let ghost start = edges_in(*edges);
        let ghost list0 = target_models(list@);
        let ghost found0 = models(found@);
        let ghost f = w.target_edges();
        let n = targets.len();
        proof {
            union_over_none(targets@.take(0), f);
            assert(start.union(Set::empty()) =~= start);
        }
        let mut i: usize = 0;
        while i < n
            invariant
                i <= n,
                n == targets@.len(),
                w == self@,
                f == w.target_edges(),
                grows(*old(edges), *edges),
                edges_in(*edges) == start.union(union_over(targets@.take(i as int), f)),
                (target_models(list@), models(found@)) == w.declared(targets@, i as int, list0, found0),
            decreases n - i,
        {
            let target = &targets[i];
            let entrypoint = normalize_path(self.disk, &target.entrypoint);
            let ghost seen = edges_in(*edges);
            if self.modules.contains_key(&entrypoint) {
                self.add_root(target.package.as_str(), &entrypoint, edges);
                add_target(list, target.package.as_str());
                *found = drop_virtual(found, target.package.as_str());
            } else {
                let ghost before = target_models(list@);
                let ghost earlier = models(found@);
                let mut message = "target `".to_owned();
                message.append(target.package.as_str());
                message.append("` entrypoint `");
                message.append(entrypoint.display().as_str());
                message.append("` is not represented in the source graph");
                let item = Diagnostic {
                    code: "MONORIPPLE_VIRTUAL_OR_GENERATED_ENTRYPOINT",
                    severity: Severity::Warning,
                    message,
                    path: Some(entrypoint),
                    members: Vec::new(),
                };
                assert(models(item.members@) =~= Seq::empty());
                let ghost m = item.model();
                found.push(item);
                let added = TargetNode {
                    package: target.package.clone(),
                    node: node_of_target(target.package.as_str()),
                };
                let ghost a = (added.package@, added.node@);
                list.push(added);
                proof {
                    assert(models(found@) =~= earlier.push(m));
                    assert(target_models(list@) =~= before.push(a));
                    assert(seen.union(Set::empty()) =~= seen);
                }
            }
            proof {
                union_over_next(targets@, f, i as int);
                assert(edges_in(*edges) =~= start.union(union_over(targets@.take(i + 1), f)));
            }
            i += 1;
        }
        proof {
            union_over_all(targets@, f, n as int);
        }
    }
}

} // verus!
