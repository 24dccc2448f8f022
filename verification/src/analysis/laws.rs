//! What holds of the seeds of every change.
use vstd::prelude::*;

use crate::analysis::seeds::{everywhere, owned_runtime, owned_types, with_package, SeedsModel};
use crate::analysis::symbols::{
    all_runtime, all_types, changed_registry, changed_runtime, changed_types, common, entry_node,
    is_reordered, registry_entries, removed_entry, removed_node, removed_runtime_node,
    retyped_node, rewritten_entry, rewritten_node, runtime_node, symbol_node,
};
use crate::analysis::{found, old_location, was, were, with_lockfile, ChangeSeeds, ChangeTexts, Ground};
use crate::collections::{ascending_list, ascending_list_fits, first_from_fits, union_over};
use crate::graph::links::edges_in;
use crate::graph::node::NodeModel;
use crate::graph::resolve::normal;
use crate::graph::targets::{target_models, TargetModel};
use crate::parser::assemble::parsed;
use crate::parser::model::texts;
use crate::parser::syntax::is_source_extension;
use crate::parser::{entry_symbol, ParsedModule, MODULE_INIT};
use crate::path::{extension_of, name_of, parent_of};
use crate::pnpm::lockfile::revision_model;
use crate::pnpm::{package_importers, revision_change};
use crate::package_manager::{manager_of, PackageManager};
use crate::query::laws::{is_deepest_above, the_deepest_package_owns};
use crate::workspace::owner::{owner_of, Path};
use crate::workspace::roots::{is_named, package_with_name};
use crate::workspace::Package;

verus! {

pub type Text = Seq<char>;

/// What a list of keys lists.
proof fn keys_are_listed<A, E>(keys: Seq<A>, dom: Set<A>, f: spec_fn(A) -> Set<E>, e: E)
    requires
        dom == keys.to_set(),
    ensures
        union_over(keys, f).contains(e) == (exists|k: A| #[trigger]
            dom.contains(k) && f(k).contains(e)),
{
    if union_over(keys, f).contains(e) {
        let i = choose|i: int| 0 <= i < keys.len() && (#[trigger] f(keys[i])).contains(e);
        assert(keys.to_set().contains(keys[i]));
        assert(dom.contains(keys[i]) && f(keys[i]).contains(e));
    }
    if exists|k: A| #[trigger] dom.contains(k) && f(k).contains(e) {
        let k = choose|k: A| #[trigger] dom.contains(k) && f(k).contains(e);
        assert(keys.to_set().contains(k));
        let i = choose|i: int| 0 <= i < keys.len() && keys[i] == k;
        assert(f(keys[i]).contains(e));
    }
}

/// For types a symbol changed exactly where it is new, where its text differs, or where it is
/// gone, whether or not it exists at run time. Of a symbol that was and is a registry all of the
/// text counts, with its entries.
pub proof fn types_change_with_their_text(
    old_path: Path,
    path: Path,
    old: ParsedModule,
    new: ParsedModule,
    at: Path,
    name: Text,
)
    ensures
        changed_types(old_path, path, old, new).contains((at, name)) == ({
            ||| at == path && new.symbols@.dom().contains(name) && (if !old.symbols@.dom().contains(
                name,
            ) && !(old.registries@.dom().contains(name) && new.registries@.dom().contains(name)) {
                true
            } else if old.registries@.dom().contains(name) && new.registries@.dom().contains(name) {
                old.registries@[name].full_fingerprint@ != new.registries@[name].full_fingerprint@
            } else {
                old.symbols@[name].fingerprint@ != new.symbols@[name].fingerprint@
            })
            ||| at == old_path && old.symbols@.dom().contains(name) && !new.symbols@.dom().contains(
                name,
            )
        }),
{
    let e = (at, name);
    new.symbols.dom_is_finite();
    old.symbols.dom_is_finite();
    let f = retyped_node(path, old, new);
    let g = removed_node(old_path, new);
    keys_are_listed(new.symbols.keys(), new.symbols@.dom(), f, e);
    keys_are_listed(old.symbols.keys(), old.symbols@.dom(), g, e);
    if new.symbols@.dom().contains(name) && f(name).contains(e) {
        assert(union_over(new.symbols.keys(), f).contains(e));
    }
    if old.symbols@.dom().contains(name) && g(name).contains(e) {
        assert(union_over(old.symbols.keys(), g).contains(e));
    }
}

/// At run time a symbol that was and is no registry changed exactly where it exists at run time
/// and is new or its text differs, or where it existed at run time and is gone. The names of
/// symbols hold no bracket.
pub proof fn declarations_change_at_run_time(
    old_path: Path,
    path: Path,
    old: ParsedModule,
    new: ParsedModule,
    at: Path,
    name: Text,
)
    requires
        !name.contains('['),
        !old.registries@.dom().contains(name) || !new.registries@.dom().contains(name),
    ensures
        changed_runtime(old_path, path, old, new).contains((at, name)) == ({
            ||| at == path && new.symbols@.dom().contains(name) && new.symbols@[name].runtime && (
            !old.symbols@.dom().contains(name) || old.symbols@[name].fingerprint@
                != new.symbols@[name].fingerprint@)
            ||| at == old_path && old.symbols@.dom().contains(name) && !new.symbols@.dom().contains(
                name,
            ) && old.symbols@[name].runtime
        }),
{
    let e = (at, name);
    new.symbols.dom_is_finite();
    old.symbols.dom_is_finite();
    let f = rewritten_node(path, old, new);
    let g = removed_runtime_node(old_path, old, new);
    let h = changed_registry(old_path, path, old, new);
    keys_are_listed(new.symbols.keys(), new.symbols@.dom(), f, e);
    keys_are_listed(old.symbols.keys(), old.symbols@.dom(), g, e);
    if new.symbols@.dom().contains(name) && f(name).contains(e) {
        assert(union_over(new.symbols.keys(), f).contains(e));
    }
    if old.symbols@.dom().contains(name) && g(name).contains(e) {
        assert(union_over(old.symbols.keys(), g).contains(e));
    }
    assert forall|registry: Text, key: Text| name != #[trigger] entry_symbol(registry, key) by {
        reveal_strlit("[");
        assert("["@[0] == '[');
        assert(entry_symbol(registry, key)[registry.len() as int] == '[');
    }
    assert forall|registry: Text| !(#[trigger] h(registry)).contains(e) by {
        let before = old.registries@[registry];
        let after = new.registries@[registry];
        assert(!union_over(after.entries.keys(), rewritten_entry(path, registry, before, after)).contains(e));
        assert(!union_over(before.entries.keys(), removed_entry(old_path, registry, after)).contains(e));
        assert(!union_over(after.entries.keys(), entry_node(path, registry)).contains(e));
        assert(!union_over(before.entries.keys(), entry_node(old_path, registry)).contains(e));
    }
}

/// An entry of a registry is a seed at run time where it is new, where its text differs, or where
/// it is gone.
pub proof fn changed_entries_are_seeds(
    old_path: Path,
    path: Path,
    old: ParsedModule,
    new: ParsedModule,
    registry: Text,
    key: Text,
)
    ensures
        new.registries@.dom().contains(registry) && new.registries@[registry].entries@.dom().contains(key)
            && (!old.registries@.dom().contains(registry)
            || !old.registries@[registry].entries@.dom().contains(key)
            || old.registries@[registry].entries@[key].fingerprint@
            != new.registries@[registry].entries@[key].fingerprint@) ==> changed_runtime(
            old_path,
            path,
            old,
            new,
        ).contains((path, entry_symbol(registry, key))),
        old.registries@.dom().contains(registry) && old.registries@[registry].entries@.dom().contains(key)
            && (!new.registries@.dom().contains(registry)
            || !new.registries@[registry].entries@.dom().contains(key)) ==> changed_runtime(
            old_path,
            path,
            old,
            new,
        ).contains((old_path, entry_symbol(registry, key))),
{
    new.registries.dom_is_finite();
    old.registries.dom_is_finite();
    let h = changed_registry(old_path, path, old, new);
    let before = old.registries@[registry];
    let after = new.registries@[registry];
    before.entries.dom_is_finite();
    after.entries.dom_is_finite();
    let here = (path, entry_symbol(registry, key));
    let there = (old_path, entry_symbol(registry, key));
    let one = rewritten_entry(path, registry, before, after);
    let two = removed_entry(old_path, registry, after);
    let three = entry_node(path, registry);
    let four = entry_node(old_path, registry);
    keys_are_listed(after.entries.keys(), after.entries@.dom(), one, here);
    keys_are_listed(before.entries.keys(), before.entries@.dom(), two, there);
    keys_are_listed(after.entries.keys(), after.entries@.dom(), three, here);
    keys_are_listed(before.entries.keys(), before.entries@.dom(), four, there);
    keys_are_listed(new.registries.keys(), new.registries@.dom(), h, here);
    keys_are_listed(old.registries.keys(), old.registries@.dom(), h, there);
    if after.entries@.dom().contains(key) {
        assert(three(key).contains(here));
        if !before.entries@.dom().contains(key) || before.entries@[key].fingerprint@
            != after.entries@[key].fingerprint@ {
            assert(one(key).contains(here));
        }
    }
    if before.entries@.dom().contains(key) {
        assert(four(key).contains(there));
        if !after.entries@.dom().contains(key) {
            assert(two(key).contains(there));
        }
    }
    if new.registries@.dom().contains(registry) && h(registry).contains(here) {
        assert(union_over(new.registries.keys(), h).contains(here));
    }
    if old.registries@.dom().contains(registry) && h(registry).contains(there) {
        assert(union_over(old.registries.keys(), h).contains(there));
    }
}

proof fn common_keeps_order(order: Seq<Text>, keys: Set<Text>, n: int, i: int, j: int) -> (r: (
    int,
    int,
))
    requires
        0 <= i < j < n <= order.len(),
        keys.contains(order[i]),
        keys.contains(order[j]),
    ensures
        0 <= r.0 < r.1 < common(order, keys, n).len(),
        common(order, keys, n)[r.0] == order[i],
        common(order, keys, n)[r.1] == order[j],
    decreases n,
{
    if j < n - 1 {
        common_keeps_order(order, keys, n - 1, i, j)
    } else {
        let p = common_keeps(order, keys, n - 1, i);
        (p, common(order, keys, n - 1).len() as int)
    }
}

proof fn common_keeps(order: Seq<Text>, keys: Set<Text>, n: int, i: int) -> (r: int)
    requires
        0 <= i < n <= order.len(),
        keys.contains(order[i]),
    ensures
        0 <= r < common(order, keys, n).len(),
        common(order, keys, n)[r] == order[i],
    decreases n,
{
    if i < n - 1 {
        common_keeps(order, keys, n - 1, i)
    } else {
        common(order, keys, n - 1).len() as int
    }
}

proof fn common_repeats_nothing(order: Seq<Text>, keys: Set<Text>, n: int)
    requires
        0 <= n <= order.len(),
        order.no_duplicates(),
    ensures
        common(order, keys, n).no_duplicates(),
        forall|x: Text| #[trigger]
            common(order, keys, n).contains(x) ==> exists|k: int| 0 <= k < n && order[k] == x,
    decreases n,
{
    if n > 0 {
        common_repeats_nothing(order, keys, n - 1);
        let front = common(order, keys, n - 1);
        let all = common(order, keys, n);
        if keys.contains(order[n - 1]) {
            assert forall|a: int, b: int| 0 <= a < all.len() && 0 <= b < all.len() && a != b implies all[a]
                != all[b] by {
                if a < front.len() && b < front.len() {
                    assert(front[a] != front[b]);
                } else if a < front.len() {
                    assert(front.contains(front[a]));
                } else {
                    assert(front.contains(front[b]));
                }
            }
            assert forall|x: Text| #[trigger] all.contains(x) implies exists|k: int|
                0 <= k < n && order[k] == x by {
                let a = choose|a: int| 0 <= a < all.len() && all[a] == x;
                if a < front.len() {
                    assert(front.contains(front[a]));
                } else {
                    assert(order[n - 1] == x);
                }
            }
        }
    }
}

/// A registry two of whose entries changed places is a seed at run time itself.
pub proof fn reordered_registries_are_seeds(
    old_path: Path,
    path: Path,
    old: ParsedModule,
    new: ParsedModule,
    registry: Text,
    i: int,
    j: int,
    k: int,
    l: int,
)
    requires
        old.registries@.dom().contains(registry),
        new.registries@.dom().contains(registry),
        ({
            let a = texts(old.registries@[registry].entry_order@);
            let b = texts(new.registries@[registry].entry_order@);
            &&& a.no_duplicates()
            &&& b.no_duplicates()
            &&& 0 <= i < j < a.len()
            &&& 0 <= k < l < b.len()
            &&& a[i] == b[l]
            &&& a[j] == b[k]
            &&& old.registries@[registry].entries@.dom().contains(a[i])
            &&& old.registries@[registry].entries@.dom().contains(a[j])
            &&& new.registries@[registry].entries@.dom().contains(a[i])
            &&& new.registries@[registry].entries@.dom().contains(a[j])
        }),
    ensures
        changed_runtime(old_path, path, old, new).contains((path, registry)),
{
    let before = old.registries@[registry];
    let after = new.registries@[registry];
    let a = texts(before.entry_order@);
    let b = texts(after.entry_order@);
    let x = after.entries@.dom();
    let y = before.entries@.dom();
    let (p, q) = common_keeps_order(a, x, a.len() as int, i, j);
    let (s, t) = common_keeps_order(b, y, b.len() as int, k, l);
    common_repeats_nothing(a, x, a.len() as int);
    let c = common(a, x, a.len() as int);
    let d = common(b, y, b.len() as int);
    if c == d {
        assert(c[p] == c[t] && c[q] == c[s]);
        assert(p == t && q == s);
    }
    assert(is_reordered(before, after));
    let h = changed_registry(old_path, path, old, new);
    new.registries.dom_is_finite();
    keys_are_listed(new.registries.keys(), new.registries@.dom(), h, (path, registry));
    assert(h(registry).contains((path, registry)));
    assert(union_over(new.registries.keys(), h).contains((path, registry)));
}

/// Everything of a module that is new: for types each of its symbols, and at run time each that
/// exists at run time, with the entries of the registries.
pub proof fn new_modules_are_seeds(path: Path, m: ParsedModule, at: Path, name: Text)
    ensures
        all_types(path, m).contains((at, name)) == (at == path && m.symbols@.dom().contains(name)),
        at == path && m.symbols@.dom().contains(name) && m.symbols@[name].runtime ==> all_runtime(
            path,
            m,
        ).contains((at, name)),
        !name.contains('[') && all_runtime(path, m).contains((at, name)) ==> at == path
            && m.symbols@.dom().contains(name) && m.symbols@[name].runtime,
        forall|registry: Text, key: Text|
            m.registries@.dom().contains(registry) && m.registries@[registry].entries@.dom().contains(key)
                ==> #[trigger] all_runtime(path, m).contains((path, entry_symbol(registry, key))),
{
    let e = (at, name);
    m.symbols.dom_is_finite();
    m.registries.dom_is_finite();
    let f = symbol_node(path);
    let g = runtime_node(path, m);
    let h = registry_entries(path, m);
    keys_are_listed(m.symbols.keys(), m.symbols@.dom(), f, e);
    keys_are_listed(m.symbols.keys(), m.symbols@.dom(), g, e);
    if m.symbols@.dom().contains(name) {
        if f(name).contains(e) {
            assert(all_types(path, m).contains(e));
        }
        if g(name).contains(e) {
            assert(union_over(m.symbols.keys(), g).contains(e));
        }
    }
    assert forall|registry: Text, key: Text|
        m.registries@.dom().contains(registry) && m.registries@[registry].entries@.dom().contains(key)
        implies #[trigger] all_runtime(path, m).contains((path, entry_symbol(registry, key))) by {
        let n = (path, entry_symbol(registry, key));
        let entries = m.registries@[registry].entries;
        entries.dom_is_finite();
        let o = entry_node(path, registry);
        keys_are_listed(entries.keys(), entries@.dom(), o, n);
        assert(o(key).contains(n));
        assert(h(registry).contains(n));
        keys_are_listed(m.registries.keys(), m.registries@.dom(), h, n);
    }
    if !name.contains('[') {
        assert forall|registry: Text| !(#[trigger] h(registry)).contains(e) by {
            assert forall|key: Text| name != #[trigger] entry_symbol(registry, key) by {
                reveal_strlit("[");
                assert("["@[0] == '[');
                assert(entry_symbol(registry, key)[registry.len() as int] == '[');
            }
            assert(!union_over(
                m.registries@[registry].entries.keys(),
                entry_node(path, registry),
            ).contains(e));
        }
    }
}

/// `b` holds all that `a` holds.
pub open spec fn holds_all(b: SeedsModel, a: SeedsModel) -> bool {
    &&& a.nodes.subset_of(b.nodes)
    &&& a.type_nodes.subset_of(b.type_nodes)
    &&& a.direct.dom().subset_of(b.direct.dom())
}

proof fn everywhere_adds(
    direct: crate::analysis::seeds::Direct,
    targets: Seq<TargetModel>,
    path: Path,
    details: Seq<Text>,
    n: int,
)
    requires
        n <= targets.len(),
    ensures
        direct.dom().subset_of(everywhere(direct, targets, path, details, n).dom()),
        forall|i: int|
            0 <= i < n ==> everywhere(direct, targets, path, details, n).dom().contains(
                (#[trigger] targets[i]).0,
            ),
    decreases n,
{
    if n > 0 {
        everywhere_adds(direct, targets, path, details, n - 1);
    }
}

proof fn lockfiles_add(
    s: SeedsModel,
    ground: Ground,
    path: Path,
    names: Seq<Text>,
    detail: Text,
    n: int,
)
    ensures
        holds_all(with_lockfile(s, ground, path, names, detail, n).0, s),
    decreases n,
{
    if n > 0 {
        lockfiles_add(s, ground, path, names, detail, n - 1);
        let before = with_lockfile(s, ground, path, names, detail, n - 1);
        let targets = target_models(ground.graph.targets@);
        everywhere_adds(
            before.0.direct,
            targets,
            path,
            seq![crate::analysis::seeds::UNMODELED_IMPACT@],
            targets.len() as int,
        );
    }
}

proof fn changes_only_add(ground: Ground, s: SeedsModel, c: ChangeTexts, old: Option<ParsedModule>)
    ensures
        holds_all(ground.after_change(s, c, old), s),
{
    let targets = target_models(ground.graph.targets@);
    let fallback = seq![crate::analysis::seeds::UNMODELED_IMPACT@];
    everywhere_adds(s.direct, targets, c.path(), c.description(), targets.len() as int);
    everywhere_adds(s.direct, targets, c.path(), fallback, targets.len() as int);
    if !c.is_source() {
        let more = SeedsModel {
            nodes: s.nodes.union(ground.input_nodes(c)),
            type_nodes: s.type_nodes.union(ground.input_nodes(c)),
            ..s
        };
        if let Some(manager) = ground.manager(c) {
            let owners = package_importers(
                ground.graph.disk,
                ground.root,
                ground.packages,
                ground.packages.len() as int,
            );
            if let Ok(changed) = manager.impact(
                revision_model(c.old_lockfile),
                revision_model(c.new_lockfile),
                owners,
            ) {
                let names = ascending_list::<String>(changed);
                lockfiles_add(more, ground, c.path(), names, manager.detail(), names.len() as int);
            }
        }
    }
}

proof fn seeds_stay(
    ground: Ground,
    changes: Seq<ChangeTexts>,
    olds: Seq<Option<ParsedModule>>,
    k: int,
    n: int,
)
    requires
        k <= n,
    ensures
        holds_all(ground.seeds(changes, olds, n), ground.seeds(changes, olds, k)),
    decreases n - k,
{
    if k < n {
        if n <= 0 {
        } else {
            seeds_stay(ground, changes, olds, k, n - 1);
            changes_only_add(
                ground,
                ground.seeds(changes, olds, n - 1),
                changes[n - 1],
                olds[n - 1],
            );
        }
    }
}

/// What one change starts from is among the seeds of all changes.
pub(crate) proof fn each_change_counts(ground: Ground, changes: Seq<ChangeTexts>, seeds: ChangeSeeds, k: int) -> (r: (
    SeedsModel,
    Option<ParsedModule>,
))
    requires
        found(ground, changes, Ok(seeds)),
        0 <= k < changes.len(),
    ensures
        holds_all(seeds@, ground.after_change(r.0, changes[k], r.1)),
        match r.1 {
            Some(old) => changes[k].was_module() && was(ground.root, changes[k], Ok(old)),
            None => !changes[k].was_module(),
        },
{
    let olds = choose|olds: Seq<Option<ParsedModule>>| #[trigger]
        were(ground.root, changes, olds) && olds.len() == changes.len() && seeds@ == ground.seeds(
            changes,
            olds,
            changes.len() as int,
        );
    seeds_stay(ground, changes, olds, k + 1, changes.len() as int);
    assert(match olds[k] {
        Some(m) => changes[k].was_module() && was(ground.root, changes[k], Ok(m)),
        None => !changes[k].was_module(),
    });
    (ground.seeds(changes, olds, k), olds[k])
}

/// A module that was modified: every declaration whose text differs, or that is new, is a seed
/// for types, and at run time where it exists at run time; so is every one that is gone, at the
/// place where it was.
pub proof fn modified_modules_seed_their_changes(
    ground: Ground,
    changes: Seq<ChangeTexts>,
    seeds: ChangeSeeds,
    k: int,
)
    requires
        found(ground, changes, Ok(seeds)),
        0 <= k < changes.len(),
        is_source_extension(extension_of(changes[k].change.path@)),
        changes[k].change.kind@ is Modified,
        changes[k].before is Some,
        ground.graph.modules@.dom().contains(normal(ground.graph.disk, changes[k].change.path@)),
    ensures
        ({
            let here = normal(ground.graph.disk, changes[k].change.path@);
            let there = old_location(ground.root, changes[k].change.path@, changes[k].change.kind@);
            let new = ground.graph.modules@[here];
            exists|old: ParsedModule| #[trigger]
                parsed(there, changes[k].before->0@, Ok(old)) && seeds_differences(
                    seeds,
                    there,
                    here,
                    old,
                    new,
                )
        }),
{
    let (s, old) = each_change_counts(ground, changes, seeds, k);
    let c = changes[k];
    let here = normal(ground.graph.disk, c.path());
    let there = old_location(ground.root, c.path(), c.kind());
    let new = ground.graph.modules@[here];
    let m = old->0;
    assert(parsed(there, c.before->0@, Ok(m)));
    assert forall|name: Text| #[trigger]
        new.symbols@.dom().contains(name) && (!old->0.symbols@.dom().contains(name)
            || m.symbols@[name].fingerprint@ != new.symbols@[name].fingerprint@)
            && !(m.registries@.dom().contains(name) && new.registries@.dom().contains(name)) implies
        seeds.type_nodes@.contains((here, name)) && (new.symbols@[name].runtime && !name.contains('[')
        ==> seeds.nodes@.contains((here, name))) by {
        types_change_with_their_text(there, here, m, new, here, name);
        if !name.contains('[') {
            declarations_change_at_run_time(there, here, m, new, here, name);
        }
    }
    assert forall|name: Text| #[trigger]
        m.symbols@.dom().contains(name) && !new.symbols@.dom().contains(name) implies
        seeds.type_nodes@.contains((there, name)) && (m.symbols@[name].runtime && !name.contains('[')
        && !(m.registries@.dom().contains(name) && new.registries@.dom().contains(name))
        ==> seeds.nodes@.contains((there, name))) by {
        types_change_with_their_text(there, here, m, new, there, name);
        if !name.contains('[') && !(m.registries@.dom().contains(name)
            && new.registries@.dom().contains(name)) {
            declarations_change_at_run_time(there, here, m, new, there, name);
        }
    }
    assert(seeds_differences(seeds, there, here, m, new));
}

/// The seeds hold what differs between two versions of a module.
pub open spec fn seeds_differences(
    seeds: ChangeSeeds,
    there: Path,
    here: Path,
    old: ParsedModule,
    new: ParsedModule,
) -> bool {
    &&& forall|name: Text| #[trigger]
        new.symbols@.dom().contains(name) && (!old.symbols@.dom().contains(name)
            || old.symbols@[name].fingerprint@ != new.symbols@[name].fingerprint@) && !(
        old.registries@.dom().contains(name) && new.registries@.dom().contains(name))
            ==> seeds.type_nodes@.contains((here, name)) && (new.symbols@[name].runtime
            && !name.contains('[') ==> seeds.nodes@.contains((here, name)))
    &&& forall|name: Text| #[trigger]
        old.symbols@.dom().contains(name) && !new.symbols@.dom().contains(name)
            ==> seeds.type_nodes@.contains((there, name)) && (old.symbols@[name].runtime
            && !name.contains('[') && !(old.registries@.dom().contains(name)
            && new.registries@.dom().contains(name)) ==> seeds.nodes@.contains((there, name)))
}

/// A module that was added: all of its declarations are seeds for types, and those that exist at
/// run time are seeds at run time.
pub proof fn added_modules_seed_everything(
    ground: Ground,
    changes: Seq<ChangeTexts>,
    seeds: ChangeSeeds,
    k: int,
    name: Text,
)
    requires
        found(ground, changes, Ok(seeds)),
        0 <= k < changes.len(),
        is_source_extension(extension_of(changes[k].change.path@)),
        changes[k].change.kind@ is Added,
        ground.graph.modules@.dom().contains(normal(ground.graph.disk, changes[k].change.path@)),
        ground.graph.modules@[normal(
            ground.graph.disk,
            changes[k].change.path@,
        )].symbols@.dom().contains(name),
    ensures
        seeds.type_nodes@.contains((normal(ground.graph.disk, changes[k].change.path@), name)),
        ground.graph.modules@[normal(
            ground.graph.disk,
            changes[k].change.path@,
        )].symbols@[name].runtime ==> seeds.nodes@.contains(
            (normal(ground.graph.disk, changes[k].change.path@), name),
        ),
{
    let (s, old) = each_change_counts(ground, changes, seeds, k);
    let here = normal(ground.graph.disk, changes[k].path());
    new_modules_are_seeds(here, ground.graph.modules@[here], here, name);
}

/// A module that was deleted: all that it declared at the base revision are seeds, at the place
/// where it was.
pub proof fn deleted_modules_seed_everything(
    ground: Ground,
    changes: Seq<ChangeTexts>,
    seeds: ChangeSeeds,
    k: int,
    name: Text,
)
    requires
        found(ground, changes, Ok(seeds)),
        0 <= k < changes.len(),
        is_source_extension(extension_of(changes[k].change.path@)),
        changes[k].change.kind@ is Deleted,
        changes[k].before is Some,
        !ground.graph.modules@.dom().contains(normal(ground.graph.disk, changes[k].change.path@)),
        ground.base is Some,
        ({
            let there = old_location(ground.root, changes[k].change.path@, changes[k].change.kind@);
            let base = ground.base->0;
            base.modules@.dom().contains(there) && base.modules@[there].symbols@.dom().contains(name)
        }),
    ensures
        ({
            let there = old_location(ground.root, changes[k].change.path@, changes[k].change.kind@);
            let m = ground.base->0.modules@[there];
            seeds.type_nodes@.contains((there, name)) && (m.symbols@[name].runtime
                ==> seeds.nodes@.contains((there, name)))
        }),
{
    let (s, old) = each_change_counts(ground, changes, seeds, k);
    let there = old_location(ground.root, changes[k].path(), changes[k].kind());
    new_modules_are_seeds(there, ground.base->0.modules@[there], there, name);
}

/// A file that is no module, and that something depends on, is a seed where it changed.
pub proof fn changed_inputs_are_seeds(
    ground: Ground,
    changes: Seq<ChangeTexts>,
    seeds: ChangeSeeds,
    k: int,
    consumer: NodeModel,
)
    requires
        found(ground, changes, Ok(seeds)),
        0 <= k < changes.len(),
        !is_source_extension(extension_of(changes[k].change.path@)),
        edges_in(ground.graph.edges).contains(
            (consumer, (normal(ground.graph.disk, changes[k].change.path@), MODULE_INIT@)),
        ) || edges_in(ground.graph.type_edges).contains(
            (consumer, (normal(ground.graph.disk, changes[k].change.path@), MODULE_INIT@)),
        ),
    ensures
        seeds.nodes@.contains((normal(ground.graph.disk, changes[k].change.path@), MODULE_INIT@)),
        seeds.type_nodes@.contains((normal(ground.graph.disk, changes[k].change.path@), MODULE_INIT@)),
{
    let (s, old) = each_change_counts(ground, changes, seeds, k);
    let c = changes[k];
    let n = (normal(ground.graph.disk, c.path()), MODULE_INIT@);
    assert(ground.input_nodes(c).contains(n));
    let more = SeedsModel {
        nodes: s.nodes.union(ground.input_nodes(c)),
        type_nodes: s.type_nodes.union(ground.input_nodes(c)),
        ..s
    };
    inputs_add(ground, s, c);
    assert(more.nodes.contains(n));
}

proof fn inputs_add(ground: Ground, s: SeedsModel, c: ChangeTexts)
    ensures
        ground.input_nodes(c).subset_of(ground.after_input(s, c).nodes),
        ground.input_nodes(c).subset_of(ground.after_input(s, c).type_nodes),
{
    let more = SeedsModel {
        nodes: s.nodes.union(ground.input_nodes(c)),
        type_nodes: s.type_nodes.union(ground.input_nodes(c)),
        ..s
    };
    if let Some(manager) = ground.manager(c) {
        let owners = package_importers(
            ground.graph.disk,
            ground.root,
            ground.packages,
            ground.packages.len() as int,
        );
        if let Ok(changed) = manager.impact(
            revision_model(c.old_lockfile),
            revision_model(c.new_lockfile),
            owners,
        ) {
            let names = ascending_list::<String>(changed);
            lockfiles_add(more, ground, c.path(), names, manager.detail(), names.len() as int);
        }
    }
}

/// The name of a file that is an input of a build.
pub open spec fn names_build_input(name: Text) -> bool {
    ||| name == "package.json"@
    ||| name == "wrangler.json"@
    ||| name == "wrangler.jsonc"@
    ||| name == "tsconfig.json"@
    ||| name == "Cargo.toml"@
    ||| name == "build.rs"@
    ||| "vite.config."@.is_prefix_of(name)
}

/// A change of a manifest, or of another input of a build, concerns the package that it lies in
/// as a whole: with everything that the modules of the package declare.
pub proof fn build_inputs_concern_their_package(
    ground: Ground,
    changes: Seq<ChangeTexts>,
    seeds: ChangeSeeds,
    k: int,
    name: Text,
    i: int,
)
    requires
        found(ground, changes, Ok(seeds)),
        0 <= k < changes.len(),
        !is_source_extension(extension_of(changes[k].change.path@)),
        !(changes[k].change.kind@ is Renamed),
        name_of(changes[k].change.path@) == Some(name),
        names_build_input(name),
        manager_of(name) is None,
        is_deepest_above(ground.packages, changes[k].change.path@, i),
        name == "package.json"@ ==> parent_of(changes[k].change.path@) == Some(
            ground.packages[i].dir@,
        ),
    ensures
        seeds.direct_packages@.dom().contains(ground.packages[i].name@),
        forall|path: Path, j: int, symbol: Text|
            ground.graph.modules@.dom().contains(path) && #[trigger] is_deepest_above(
                ground.packages,
                path,
                j,
            ) && ground.packages[j].dir@ == ground.packages[i].dir@
                && #[trigger] ground.graph.modules@[path].symbols@.dom().contains(symbol)
                ==> seeds.type_nodes@.contains((path, symbol)) && (
            ground.graph.modules@[path].symbols@[symbol].runtime ==> seeds.nodes@.contains(
                (path, symbol),
            )),
{
    let (s, old) = each_change_counts(ground, changes, seeds, k);
    let c = changes[k];
    let graph = ground.graph;
    let packages = ground.packages;
    the_deepest_package_owns(packages, c.path(), i);
    let more = SeedsModel {
        nodes: s.nodes.union(ground.input_nodes(c)),
        type_nodes: s.type_nodes.union(ground.input_nodes(c)),
        ..s
    };
    assert(c.name() == name);
    assert(ground.manager(c) is None);
    assert(!ground.is_stray_manifest(c));
    let all = with_package(more, graph, packages, packages[i], c.path(), c.description());
    assert(ground.after_change(s, c, old) == all);
    assert(all.direct.dom().contains(packages[i].name@));
    assert(seeds@.direct.dom().contains(packages[i].name@));
    assert forall|path: Path, j: int, symbol: Text|
        graph.modules@.dom().contains(path) && #[trigger] is_deepest_above(packages, path, j)
            && packages[j].dir@ == packages[i].dir@
            && #[trigger] graph.modules@[path].symbols@.dom().contains(symbol) implies
        seeds.type_nodes@.contains((path, symbol)) && (graph.modules@[path].symbols@[symbol].runtime
        ==> seeds.nodes@.contains((path, symbol))) by {
        the_deepest_package_owns(packages, path, j);
        graph.modules.dom_is_finite();
        new_modules_are_seeds(path, graph.modules@[path], path, symbol);
        let f = owned_runtime(graph, packages, packages[i].dir@);
        let g = owned_types(graph, packages, packages[i].dir@);
        keys_are_listed(graph.modules.keys(), graph.modules@.dom(), f, (path, symbol));
        keys_are_listed(graph.modules.keys(), graph.modules@.dom(), g, (path, symbol));
        assert(g(path).contains((path, symbol)));
        assert(all.type_nodes.contains((path, symbol)));
        if graph.modules@[path].symbols@[symbol].runtime {
            assert(f(path).contains((path, symbol)));
            assert(all.nodes.contains((path, symbol)));
        }
    }
}

/// A manifest that lies in the directory of no known package concerns every target.
pub proof fn stray_manifests_concern_every_target(
    ground: Ground,
    changes: Seq<ChangeTexts>,
    seeds: ChangeSeeds,
    k: int,
    t: int,
)
    requires
        found(ground, changes, Ok(seeds)),
        0 <= k < changes.len(),
        !is_source_extension(extension_of(changes[k].change.path@)),
        name_of(changes[k].change.path@) == Some("package.json"@),
        manager_of("package.json"@) is None,
        forall|i: int| #[trigger]
            is_deepest_above(ground.packages, changes[k].change.path@, i) ==> parent_of(
                changes[k].change.path@,
            ) != Some(ground.packages[i].dir@),
        0 <= t < ground.graph.targets@.len(),
    ensures
        seeds.direct_packages@.dom().contains(ground.graph.targets@[t].package@),
{
    let (s, old) = each_change_counts(ground, changes, seeds, k);
    let c = changes[k];
    let more = SeedsModel {
        nodes: s.nodes.union(ground.input_nodes(c)),
        type_nodes: s.type_nodes.union(ground.input_nodes(c)),
        ..s
    };
    let targets = target_models(ground.graph.targets@);
    everywhere_adds(more.direct, targets, c.path(), c.description(), targets.len() as int);
    match owner_of(ground.packages, c.path()) {
        Some(i) => {
            the_deepest_package_owns(ground.packages, c.path(), i);
        },
        None => {},
    }
    assert(ground.is_stray_manifest(c));
    assert(targets[t].0 == ground.graph.targets@[t].package@);
    assert(seeds@.direct.dom().contains(targets[t].0));
}

proof fn the_named_package_has_the_name(packages: Seq<Package>, name: Text)
    ensures
        match package_with_name(packages, name) {
            Some(i) => 0 <= i < packages.len() && packages[i].name@ == name,
            None => forall|i: int| 0 <= i < packages.len() ==> (#[trigger] packages[i]).name@ != name,
        },
{
    let p = is_named(packages, name);
    first_from_fits(p, 0, packages.len() as int);
    if package_with_name(packages, name) is None {
        assert forall|i: int| 0 <= i < packages.len() implies (#[trigger] packages[i]).name@ != name by {
            assert(!p(i));
        }
    }
}

proof fn all_named_packages_are_noted(
    s: SeedsModel,
    ground: Ground,
    path: Path,
    names: Seq<Text>,
    detail: Text,
    n: int,
)
    requires
        0 <= n <= names.len(),
        forall|i: int| 0 <= i < n ==> package_with_name(ground.packages, #[trigger] names[i]) is Some,
    ensures
        !with_lockfile(s, ground, path, names, detail, n).1,
        forall|i: int|
            0 <= i < n ==> with_lockfile(s, ground, path, names, detail, n).0.direct.dom().contains(
                #[trigger] names[i],
            ),
    decreases n,
{
    if n > 0 {
        all_named_packages_are_noted(s, ground, path, names, detail, n - 1);
        let p = package_with_name(ground.packages, names[n - 1]);
        the_named_package_has_the_name(ground.packages, names[n - 1]);
    }
}

/// A change of pnpm's lockfile at the root concerns each package whose importer changed, where
/// the packages are known; where the change cannot be modeled, it concerns every target.
pub proof fn lockfile_changes_concern_packages(
    ground: Ground,
    changes: Seq<ChangeTexts>,
    seeds: ChangeSeeds,
    k: int,
)
    requires
        found(ground, changes, Ok(seeds)),
        0 <= k < changes.len(),
        !is_source_extension(extension_of(changes[k].change.path@)),
        parent_of(changes[k].change.path@) == Some(ground.root),
        name_of(changes[k].change.path@) == Some("pnpm-lock.yaml"@),
    ensures
        match revision_change(
            revision_model(changes[k].old_lockfile),
            revision_model(changes[k].new_lockfile),
            package_importers(
                ground.graph.disk,
                ground.root,
                ground.packages,
                ground.packages.len() as int,
            ),
        ) {
            Ok(changed) => changed.finite() && (forall|name: Text| #[trigger]
                changed.contains(name) ==> exists|i: int|
                    0 <= i < ground.packages.len() && (#[trigger] ground.packages[i]).name@ == name)
                ==> changed.subset_of(seeds.direct_packages@.dom()),
            Err(_) => forall|t: int|
                0 <= t < ground.graph.targets@.len() ==> seeds.direct_packages@.dom().contains(
                    (#[trigger] ground.graph.targets@[t]).package@,
                ),
        },
{
    let (s, old) = each_change_counts(ground, changes, seeds, k);
    let c = changes[k];
    let more = SeedsModel {
        nodes: s.nodes.union(ground.input_nodes(c)),
        type_nodes: s.type_nodes.union(ground.input_nodes(c)),
        ..s
    };
    let owners = package_importers(
        ground.graph.disk,
        ground.root,
        ground.packages,
        ground.packages.len() as int,
    );
    assert(ground.manager(c) == Some(PackageManager::Pnpm));
    match revision_change(revision_model(c.old_lockfile), revision_model(c.new_lockfile), owners) {
        Ok(changed) => {
            if changed.finite() && forall|name: Text| #[trigger]
                changed.contains(name) ==> exists|i: int|
                    0 <= i < ground.packages.len() && (#[trigger] ground.packages[i]).name@ == name {
                let names = ascending_list::<String>(changed);
                ascending_list_fits::<String>(changed);
                assert forall|i: int| 0 <= i < names.len() implies package_with_name(
                    ground.packages,
                    #[trigger] names[i],
                ) is Some by {
                    assert(names.to_set().contains(names[i]));
                    the_named_package_has_the_name(ground.packages, names[i]);
                }
                all_named_packages_are_noted(
                    more,
                    ground,
                    c.path(),
                    names,
                    PackageManager::Pnpm.detail(),
                    names.len() as int,
                );
                assert forall|name: Text| changed.contains(name) implies
                    seeds.direct_packages@.dom().contains(name) by {
                    assert(names.to_set().contains(name));
                    let i = choose|i: int| 0 <= i < names.len() && names[i] == name;
                    assert(seeds@.direct.dom().contains(names[i]));
                }
            }
        },
        Err(reason) => {
            let targets = target_models(ground.graph.targets@);
            everywhere_adds(
                more.direct,
                targets,
                c.path(),
                seq![crate::analysis::seeds::UNMODELED_IMPACT@],
                targets.len() as int,
            );
            assert forall|t: int| 0 <= t < ground.graph.targets@.len() implies
                seeds.direct_packages@.dom().contains((#[trigger] ground.graph.targets@[t]).package@) by {
                assert(targets[t].0 == ground.graph.targets@[t].package@);
                assert(seeds@.direct.dom().contains(targets[t].0));
            }
        },
    }
}

/// A lockfile of another package manager at the root concerns every target.
pub proof fn other_lockfiles_concern_every_target(
    ground: Ground,
    changes: Seq<ChangeTexts>,
    seeds: ChangeSeeds,
    k: int,
    name: Text,
    t: int,
)
    requires
        found(ground, changes, Ok(seeds)),
        0 <= k < changes.len(),
        !is_source_extension(extension_of(changes[k].change.path@)),
        parent_of(changes[k].change.path@) == Some(ground.root),
        name_of(changes[k].change.path@) == Some(name),
        name == "package-lock.json"@ || name == "yarn.lock"@ || name == "bun.lock"@ || name
            == "bun.lockb"@,
        0 <= t < ground.graph.targets@.len(),
    ensures
        seeds.direct_packages@.dom().contains(ground.graph.targets@[t].package@),
{
    let (s, old) = each_change_counts(ground, changes, seeds, k);
    let c = changes[k];
    let more = SeedsModel {
        nodes: s.nodes.union(ground.input_nodes(c)),
        type_nodes: s.type_nodes.union(ground.input_nodes(c)),
        ..s
    };
    reveal_strlit("pnpm-lock.yaml");
    reveal_strlit("package-lock.json");
    reveal_strlit("yarn.lock");
    reveal_strlit("bun.lock");
    reveal_strlit("bun.lockb");
    assert("pnpm-lock.yaml"@.len() == 14);
    let targets = target_models(ground.graph.targets@);
    everywhere_adds(
        more.direct,
        targets,
        c.path(),
        seq![crate::analysis::seeds::UNMODELED_IMPACT@],
        targets.len() as int,
    );
    assert(ground.manager(c) is Some && !(ground.manager(c)->0 is Pnpm));
    assert(targets[t].0 == ground.graph.targets@[t].package@);
    assert(seeds@.direct.dom().contains(targets[t].0));
}

} // verus!
