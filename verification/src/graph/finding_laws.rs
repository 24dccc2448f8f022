//! What holds of the findings about a linked graph.
use vstd::prelude::*;

use crate::collections::union_over;
use crate::diagnostics::{is_cycle_along, Severity};
use crate::graph::edge_laws::{over_has, over_holds};
use crate::graph::findings::{included, module_links, package_links};
use crate::graph::laws::{Path, Text};
use crate::graph::links::{edges_in, finding, findings_in, Finding};
use crate::graph::model::DependencyGraph;
use crate::graph::node::NodeModel;
use crate::graph::resolve::World;
use crate::graph::resolve_laws::{asks_no_package, first_asked_is_named};
use crate::graph::targets::{is_virtual_of, target_models, TargetModel};
use crate::parser::ImportedName;
use crate::path::FilePath;
use crate::text::{decimal, joined};
use crate::walk::reaches;
use crate::workspace::{Package, Target};

verus! {

/// A request that must lead to a file of the workspace: one that starts with a dot, a slash or a
/// hash, or that asks for a package of the workspace.
pub open spec fn must_lead_somewhere(w: World, request: Text) -> bool {
    ||| request.len() > 0 && (request[0] == '.' || request[0] == '/' || request[0] == '#')
    ||| !asks_no_package(w.packages, request)
}

/// The finding about a request that leads nowhere: an error where it asks for a package of the
/// workspace, else a warning.
pub open spec fn says_unresolved(w: World, path: Path, request: Text, message: Text, d: Finding) -> bool {
    if asks_no_package(w.packages, request) {
        d == finding(
            "MONORIPPLE_UNRESOLVED_LOCAL_IMPORT"@,
            Severity::Warning,
            message,
            Some(path),
            Seq::empty(),
        )
    } else {
        d == finding(
            "MONORIPPLE_UNRESOLVED_WORKSPACE_IMPORT"@,
            Severity::Error,
            message,
            Some(path),
            Seq::empty(),
        )
    }
}

/// A dynamic import of the module names no module.
pub open spec fn says_dynamic(w: World, path: Path, i: int, d: Finding) -> bool {
    let list = w.modules[path].unresolved_dynamic_imports@;
    &&& 0 <= i < list.len()
    &&& d == finding(
        "MONORIPPLE_DYNAMIC_IMPORT_NON_LITERAL"@,
        Severity::Warning,
        "dynamic import `"@ + list[i]@ + "` cannot be resolved to a finite module set"@,
        Some(path),
        Seq::empty(),
    )
}

/// An import of the module leads nowhere.
pub open spec fn says_import(w: World, path: Path, local: Text, d: Finding) -> bool {
    let imports = w.modules[path].imports@;
    let request = imports[local].source@;
    &&& imports.dom().contains(local)
    &&& w.resolve(path, request) is None
    &&& must_lead_somewhere(w, request)
    &&& says_unresolved(w, path, request, "cannot resolve imported module `"@ + request + "`"@, d)
}

/// An import of a namespace leads somewhere, and the namespace is used as a whole.
pub open spec fn says_namespace(w: World, path: Path, local: Text, d: Finding) -> bool {
    let imports = w.modules[path].imports@;
    &&& imports.dom().contains(local)
    &&& w.resolve(path, imports[local].source@) is Some
    &&& imports[local].imported matches ImportedName::Namespace { members: None }
    &&& d == finding(
        "MONORIPPLE_NAMESPACE_DYNAMIC_ACCESS"@,
        Severity::Warning,
        "namespace import `"@ + local + "` uses dynamic access; all exports are dependencies"@,
        Some(path),
        Seq::empty(),
    )
}

/// A request of the module that no import makes leads nowhere.
pub open spec fn says_request(w: World, path: Path, request: Text, d: Finding) -> bool {
    let m = w.modules[path];
    &&& m.module_requests@.contains(request)
    &&& forall|local: Text|
        m.imports@.dom().contains(local) ==> (#[trigger] m.imports@[local]).source@ != request
    &&& w.resolve(path, request) is None
    &&& must_lead_somewhere(w, request)
    &&& says_unresolved(w, path, request, "cannot resolve runtime module `"@ + request + "`"@, d)
}

/// A load of the module leads nowhere.
pub open spec fn says_load(w: World, path: Path, i: int, d: Finding) -> bool {
    let loads = w.modules[path].runtime_loads@;
    let request = loads[i].source@;
    &&& 0 <= i < loads.len()
    &&& w.resolve(path, request) is None
    &&& must_lead_somewhere(w, request)
    &&& says_unresolved(w, path, request, "cannot resolve runtime module `"@ + request + "`"@, d)
}

/// A finding about the module at `path`.
pub open spec fn says_of_module(w: World, path: Path, d: Finding) -> bool {
    ||| exists|i: int| #[trigger] says_dynamic(w, path, i, d)
    ||| exists|local: Text| #[trigger] says_import(w, path, local, d)
    ||| exists|local: Text| #[trigger] says_namespace(w, path, local, d)
    ||| exists|request: Text| #[trigger] says_request(w, path, request, d)
    ||| exists|i: int| #[trigger] says_load(w, path, i, d)
}

/// The findings about a module are about dynamic imports that name no module, about imports,
/// requests and loads that should lead to a file of the workspace and do not, and about
/// namespaces that are used as a whole.
pub proof fn findings_are_about_imports(w: World, path: Path, d: Finding)
    ensures
        w.findings(path).contains(d) <==> says_of_module(w, path, d),
{
    let m = w.modules[path];
    let dynamic = m.unresolved_dynamic_imports@;
    let locals = m.imports.keys();
    let requests = m.module_requests.list();
    let loads = m.runtime_loads@;
    m.imports.dom_is_finite();
    assert forall|request: Text, message: Text|
        (d == #[trigger] w.unresolved(path, request, message)) == says_unresolved(
            w,
            path,
            request,
            message,
            d,
        ) by {
        first_asked_is_named(w.packages, request, 0);
    }
    assert forall|request: Text| #[trigger] w.is_internal(request) == must_lead_somewhere(w, request) by {
        first_asked_is_named(w.packages, request, 0);
    }
    if union_over(dynamic, w.dynamic_finding(path)).contains(d) {
        let x = over_has(dynamic, w.dynamic_finding(path), d);
        let i = choose|i: int| 0 <= i < dynamic.len() && dynamic[i] == x;
        assert(says_dynamic(w, path, i, d));
    }
    if exists|i: int| #[trigger] says_dynamic(w, path, i, d) {
        let i = choose|i: int| #[trigger] says_dynamic(w, path, i, d);
        assert((w.dynamic_finding(path))(dynamic[i]).contains(d));
        over_holds(dynamic, w.dynamic_finding(path), dynamic[i], d);
    }
    if union_over(locals, w.import_finding(path)).contains(d) {
        let local = over_has(locals, w.import_finding(path), d);
        assert(locals.to_set().contains(local));
        if w.resolve(path, m.imports@[local].source@) is None {
            assert(says_import(w, path, local, d));
        } else {
            assert(says_namespace(w, path, local, d));
        }
    }
    if exists|local: Text| #[trigger] says_import(w, path, local, d) {
        let local = choose|local: Text| #[trigger] says_import(w, path, local, d);
        assert(locals.to_set().contains(local));
        assert((w.import_finding(path))(local).contains(d));
        over_holds(locals, w.import_finding(path), local, d);
    }
    if exists|local: Text| #[trigger] says_namespace(w, path, local, d) {
        let local = choose|local: Text| #[trigger] says_namespace(w, path, local, d);
        assert(locals.to_set().contains(local));
        assert((w.import_finding(path))(local).contains(d));
        over_holds(locals, w.import_finding(path), local, d);
    }
    if union_over(requests, w.request_finding(path)).contains(d) {
        let request = over_has(requests, w.request_finding(path), d);
        assert(m.module_requests@.contains(request));
        assert(says_request(w, path, request, d));
    }
    if exists|request: Text| #[trigger] says_request(w, path, request, d) {
        let request = choose|request: Text| #[trigger] says_request(w, path, request, d);
        assert(!w.imports_from(path, request));
        assert((w.request_finding(path))(request).contains(d));
        over_holds(requests, w.request_finding(path), request, d);
    }
    if union_over(loads, w.load_finding(path)).contains(d) {
        let load = over_has(loads, w.load_finding(path), d);
        let i = choose|i: int| 0 <= i < loads.len() && loads[i] == load;
        assert(says_load(w, path, i, d));
    }
    if exists|i: int| #[trigger] says_load(w, path, i, d) {
        let i = choose|i: int| #[trigger] says_load(w, path, i, d);
        assert((w.load_finding(path))(loads[i]).contains(d));
        over_holds(loads, w.load_finding(path), loads[i], d);
    }
}

/// Some target depends on something in the file, directly or not.
pub open spec fn is_in_a_target(graph: DependencyGraph, path: Path) -> bool {
    exists|i: int, n: NodeModel|
        {
            &&& 0 <= i < graph.targets@.len()
            &&& n.0 == path
            &&& #[trigger] reaches(depends(graph), graph.targets@[i].node@, n)
        }
}

/// The run-time edges of a graph as a relation.
pub open spec fn depends(graph: DependencyGraph) -> spec_fn(NodeModel, NodeModel) -> bool {
    |a: NodeModel, b: NodeModel| edges_in(graph.edges).contains((a, b))
}

proof fn declared_keeps_findings(
    w: World,
    targets: Seq<Target>,
    n: int,
    list: Seq<TargetModel>,
    found: Seq<Finding>,
    d: Finding,
)
    requires
        0 <= n <= targets.len(),
        d.0 != "MONORIPPLE_VIRTUAL_OR_GENERATED_ENTRYPOINT"@,
    ensures
        w.declared(targets, n, list, found).1.contains(d) == found.contains(d),
    decreases n,
{
    if n > 0 {
        declared_keeps_findings(w, targets, n - 1, list, found, d);
        let earlier = w.declared(targets, n - 1, list, found).1;
        let package = targets[n - 1].package@;
        let keep = |x: Finding| !is_virtual_of(x, package);
        if w.has_entrypoint(targets[n - 1]) {
            if earlier.filter(keep).contains(d) {
                earlier.lemma_filter_contains_rev(keep, d);
            }
            if earlier.contains(d) {
                let k = choose|k: int| 0 <= k < earlier.len() && earlier[k] == d;
                earlier.filter_lemma(keep);
                assert(keep(earlier[k]));
                earlier.lemma_filter_contains(keep, k);
            }
        } else {
            let last = w.declared(targets, n, list, found).1;
            if earlier.contains(d) {
                let k = choose|k: int| 0 <= k < earlier.len() && earlier[k] == d;
                assert(last[k] == d);
            }
            if last.contains(d) {
                let k = choose|k: int| 0 <= k < last.len() && last[k] == d;
                assert(k < earlier.len());
                assert(earlier[k] == d);
            }
        }
    }
}

proof fn targets_hold(graph: DependencyGraph, path: Path)
    requires
        path != crate::graph::targets::target_file(),
    ensures
        crate::graph::findings::files_of(
            included(edges_in(graph.edges), target_models(graph.targets@)),
        ).contains(path) == is_in_a_target(graph, path),
{
    let edges = edges_in(graph.edges);
    let list = target_models(graph.targets@);
    let nodes = included(edges, list);
    let r = crate::graph::findings::along(edges);
    let q = depends(graph);
    assert(r =~= q);
    if crate::graph::findings::files_of(nodes).contains(path) {
        let n = choose|n: NodeModel| #[trigger] nodes.contains(n) && n.0 == path;
        let i = choose|i: int| 0 <= i < list.len() && #[trigger] reaches(r, list[i].1, n);
        assert(list[i].1 == graph.targets@[i].node@);
        assert(reaches(q, graph.targets@[i].node@, n));
    }
    if is_in_a_target(graph, path) {
        let (i, n) = choose|i: int, n: NodeModel|
            {
                &&& 0 <= i < graph.targets@.len()
                &&& n.0 == path
                &&& #[trigger] reaches(q, graph.targets@[i].node@, n)
            };
        assert(list[i].1 == graph.targets@[i].node@);
        assert(reaches(r, list[i].1, n));
        assert(nodes.contains(n));
    }
}

/// A linked graph reports what there is to say about a module that some target depends on.
pub proof fn findings_of_targets_are_reported(
    graph: DependencyGraph,
    targets: Seq<Target>,
    packages: Seq<Package>,
    path: Path,
    d: Finding,
)
    requires
        graph.is_linked(targets, packages),
        graph.modules@.dom().contains(path),
        path != crate::graph::targets::target_file(),
        says_of_module(graph.world(), path, d),
        is_in_a_target(graph, path),
    ensures
        findings_in(graph.diagnostics@).contains(d),
{
    let w = graph.world();
    let keys = graph.modules.keys();
    let f = |p: Path| w.findings(p);
    graph.modules.dom_is_finite();
    findings_are_about_imports(w, path, d);
    assert(keys.to_set().contains(path));
    assert(f(path).contains(d));
    over_holds(keys, f, path, d);
    assert(graph.module_findings().contains(d));
    let n = targets.len() as int;
    let found = choose|found: Seq<Finding>|
        {
            &&& found.to_set() == graph.module_findings()
            &&& target_models(graph.targets@) == (#[trigger] w.declared(
                targets,
                n,
                Seq::empty(),
                found,
            )).0
            &&& findings_in(graph.diagnostics@) == crate::graph::findings::settled(
                w.declared(targets, n, Seq::empty(), found).1.to_set(),
                packages,
                edges_in(graph.edges),
                target_models(graph.targets@),
            )
        };
    assert(found.contains(d));
    module_findings_are_not_virtual(w, path, d);
    declared_keeps_findings(w, targets, n, Seq::empty(), found, d);
    targets_hold(graph, path);
}

proof fn module_findings_are_not_virtual(w: World, path: Path, d: Finding)
    requires
        says_of_module(w, path, d),
    ensures
        d.0 != "MONORIPPLE_VIRTUAL_OR_GENERATED_ENTRYPOINT"@,
        d.1.1.1.0 == Some(path),
{
    reveal_strlit("MONORIPPLE_VIRTUAL_OR_GENERATED_ENTRYPOINT");
    reveal_strlit("MONORIPPLE_DYNAMIC_IMPORT_NON_LITERAL");
    reveal_strlit("MONORIPPLE_UNRESOLVED_LOCAL_IMPORT");
    reveal_strlit("MONORIPPLE_UNRESOLVED_WORKSPACE_IMPORT");
    reveal_strlit("MONORIPPLE_NAMESPACE_DYNAMIC_ACCESS");
    assert("MONORIPPLE_VIRTUAL_OR_GENERATED_ENTRYPOINT"@.len() == 42);
    assert("MONORIPPLE_DYNAMIC_IMPORT_NON_LITERAL"@.len() == 37);
    assert("MONORIPPLE_UNRESOLVED_LOCAL_IMPORT"@.len() == 34);
    assert("MONORIPPLE_UNRESOLVED_WORKSPACE_IMPORT"@.len() == 38);
    assert("MONORIPPLE_NAMESPACE_DYNAMIC_ACCESS"@.len() == 35);
}

/// What a linked graph reports about a file is about one that some target depends on, or about
/// the entrypoint of a target.
pub proof fn findings_concern_targets(
    graph: DependencyGraph,
    targets: Seq<Target>,
    packages: Seq<Package>,
    path: Path,
    d: Finding,
)
    requires
        graph.is_linked(targets, packages),
        findings_in(graph.diagnostics@).contains(d),
        d.1.1.1.0 == Some(path),
        path != crate::graph::targets::target_file(),
    ensures
        is_in_a_target(graph, path) || d.0 == "MONORIPPLE_VIRTUAL_OR_GENERATED_ENTRYPOINT"@ || (d.0
            == "MONORIPPLE_RUNTIME_MODULE_CYCLE"@ && exists|c: Seq<Path>| #[trigger]
            is_cycle_along::<FilePath>(
                module_links(
                    edges_in(graph.edges),
                    included(edges_in(graph.edges), target_models(graph.targets@)),
                ),
                c,
            ) && c[0] == path),
{
    targets_hold(graph, path);
}

/// Packages that depend on each other in a circle are reported, and so are files that some target
/// depends on and that do.
pub proof fn circles_are_reported(
    graph: DependencyGraph,
    targets: Seq<Target>,
    packages: Seq<Package>,
    names: Seq<Text>,
    files: Seq<Path>,
)
    requires
        graph.is_linked(targets, packages),
    ensures
        is_cycle_along::<String>(package_links(packages), names) ==> findings_in(
            graph.diagnostics@,
        ).contains(
            finding(
                "MONORIPPLE_PACKAGE_CYCLE"@,
                Severity::Info,
                "workspace package cycle: "@ + joined(names, " -> "@),
                None,
                Seq::empty(),
            ),
        ),
        is_cycle_along::<FilePath>(
            module_links(
                edges_in(graph.edges),
                included(edges_in(graph.edges), target_models(graph.targets@)),
            ),
            files,
        ) ==> findings_in(graph.diagnostics@).contains(
            finding(
                "MONORIPPLE_RUNTIME_MODULE_CYCLE"@,
                Severity::Info,
                "runtime module cycle containing "@ + decimal(files.len()) + " modules"@,
                Some(files[0]),
                files,
            ),
        ),
{
}

/// One package depends on another of the workspace where the last package of its name names it.
pub proof fn packages_link_by_dependencies(packages: Seq<Package>, i: int, j: int)
    requires
        0 <= i < packages.len(),
        0 <= j < packages.len(),
        forall|k: int| i < k < packages.len() ==> (#[trigger] packages[k]).name@ != packages[i].name@,
    ensures
        package_links(packages)(packages[i].name@, packages[j].name@)
            <==> packages[i].dependencies@.contains(packages[j].name@),
{
    assert(crate::graph::findings::is_last_named(packages, i));
    assert(packages[j].name@ == packages[j].name@);
    if package_links(packages)(packages[i].name@, packages[j].name@) {
        let k = choose|k: int| #[trigger]
            crate::graph::findings::is_last_named(packages, k) && packages[k].name@
                == packages[i].name@ && packages[k].dependencies@.contains(packages[j].name@);
        assert(k == i) by {
            if k < i {
                assert(packages[i].name@ != packages[k].name@);
            }
            if i < k {
                assert(packages[k].name@ != packages[i].name@);
            }
        }
    }
}

/// One file links to another where something in it depends on something in the other, and some
/// target depends on both.
pub proof fn files_link_by_edges(graph: DependencyGraph, a: NodeModel, b: NodeModel, i: int, j: int)
    requires
        0 <= i < graph.targets@.len(),
        0 <= j < graph.targets@.len(),
        reaches(depends(graph), graph.targets@[i].node@, a),
        reaches(depends(graph), graph.targets@[j].node@, b),
        edges_in(graph.edges).contains((a, b)),
        a.0 != b.0,
        a.0 != crate::graph::targets::target_file(),
        b.0 != crate::graph::targets::target_file(),
    ensures
        module_links(
            edges_in(graph.edges),
            included(edges_in(graph.edges), target_models(graph.targets@)),
        )(a.0, b.0),
{
    let edges = edges_in(graph.edges);
    let list = target_models(graph.targets@);
    assert(crate::graph::findings::along(edges) =~= depends(graph));
    assert(list[i].1 == graph.targets@[i].node@ && list[j].1 == graph.targets@[j].node@);
    assert(reaches(crate::graph::findings::along(edges), list[i].1, a));
    assert(reaches(crate::graph::findings::along(edges), list[j].1, b));
    assert(edges.contains((a, b)));
}

/// Every declared target is listed.
pub proof fn declared_targets_are_listed(
    graph: DependencyGraph,
    targets: Seq<Target>,
    packages: Seq<Package>,
    i: int,
)
    requires
        graph.is_linked(targets, packages),
        0 <= i < targets.len(),
    ensures
        exists|k: int|
            0 <= k < graph.targets@.len() && (#[trigger] graph.targets@[k]).package@
                == targets[i].package@,
{
    let w = graph.world();
    let n = targets.len() as int;
    let found = choose|found: Seq<Finding>|
        {
            &&& found.to_set() == graph.module_findings()
            &&& target_models(graph.targets@) == (#[trigger] w.declared(
                targets,
                n,
                Seq::empty(),
                found,
            )).0
            &&& findings_in(graph.diagnostics@) == crate::graph::findings::settled(
                w.declared(targets, n, Seq::empty(), found).1.to_set(),
                packages,
                edges_in(graph.edges),
                target_models(graph.targets@),
            )
        };
    declared_lists_targets(w, targets, n, found, i);
    let list = w.declared(targets, n, Seq::empty(), found).0;
    let k = choose|k: int| 0 <= k < list.len() && (#[trigger] list[k]).0 == targets[i].package@;
    assert(target_models(graph.targets@)[k] == list[k]);
    assert(graph.targets@[k].package@ == targets[i].package@);
}

proof fn declared_lists_targets(
    w: World,
    targets: Seq<Target>,
    n: int,
    found: Seq<Finding>,
    i: int,
)
    requires
        0 <= i < n <= targets.len(),
    ensures
        crate::graph::targets::has_target(
            w.declared(targets, n, Seq::empty(), found).0,
            targets[i].package@,
        ),
    decreases n,
{
    let before = w.declared(targets, n - 1, Seq::empty(), found).0;
    let list = w.declared(targets, n, Seq::empty(), found).0;
    if i < n - 1 {
        declared_lists_targets(w, targets, n - 1, found, i);
        let k = choose|k: int| 0 <= k < before.len() && (#[trigger] before[k]).0 == targets[i].package@;
        assert(list[k] == before[k]);
    } else if list != before {
        assert(list[before.len() as int].0 == targets[i].package@);
    }
}

} // verus!
