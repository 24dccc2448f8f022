//! Which symbols of a module a change concerns.
use vstd::prelude::*;

use crate::collections::{
    union_over, union_over_all, union_over_next, union_over_none, KeyMap, KeySet,
};
use crate::graph::node::{Node, NodeModel};
use crate::order::Key;
use crate::parser::model::texts;
use crate::parser::{
    entry_symbol, registry_entry_symbol, ParsedModule, RegistryEntryInfo, RegistryInfo,
};
use crate::path::FilePath;
use crate::workspace::owner::Path;

verus! {

pub type Text = Seq<char>;

/// The node of a symbol where a condition holds, and nothing else.
pub open spec fn node_if(holds: bool, path: Path, name: Text) -> Set<NodeModel> {
    if holds {
        Set::<NodeModel>::empty().insert((path, name))
    } else {
        Set::empty()
    }
}

/// Every symbol of a module.
pub open spec fn symbol_node(path: Path) -> spec_fn(Text) -> Set<NodeModel> {
    |name: Text| node_if(true, path, name)
}

pub open spec fn all_types(path: Path, m: ParsedModule) -> Set<NodeModel> {
    union_over(m.symbols.keys(), symbol_node(path))
}

/// A symbol where it exists at run time.
pub open spec fn runtime_node(path: Path, m: ParsedModule) -> spec_fn(Text) -> Set<NodeModel> {
    |name: Text| node_if(m.symbols@[name].runtime, path, name)
}

/// The entries of a registry.
pub open spec fn entry_node(path: Path, registry: Text) -> spec_fn(Text) -> Set<NodeModel> {
    |key: Text| node_if(true, path, entry_symbol(registry, key))
}

pub open spec fn registry_entries(path: Path, m: ParsedModule) -> spec_fn(Text) -> Set<NodeModel> {
    |name: Text| union_over(m.registries@[name].entries.keys(), entry_node(path, name))
}

/// Everything of a module that exists at run time: its symbols and the entries of its registries.
pub open spec fn all_runtime(path: Path, m: ParsedModule) -> Set<NodeModel> {
    union_over(m.symbols.keys(), runtime_node(path, m)).union(
        union_over(m.registries.keys(), registry_entries(path, m)),
    )
}

/// The text of a symbol is new or differs.
pub open spec fn is_rewritten(old: ParsedModule, new: ParsedModule, name: Text) -> bool {
    !old.symbols@.dom().contains(name) || old.symbols@[name].fingerprint@
        != new.symbols@[name].fingerprint@
}

/// A symbol changed for types; a registry does where any of its text differs.
pub open spec fn is_retyped(old: ParsedModule, new: ParsedModule, name: Text) -> bool {
    if old.registries@.dom().contains(name) && new.registries@.dom().contains(name) {
        old.registries@[name].full_fingerprint@ != new.registries@[name].full_fingerprint@
    } else {
        is_rewritten(old, new, name)
    }
}

pub open spec fn retyped_node(path: Path, old: ParsedModule, new: ParsedModule) -> spec_fn(
    Text,
) -> Set<NodeModel> {
    |name: Text| node_if(is_retyped(old, new, name), path, name)
}

pub open spec fn removed_node(path: Path, new: ParsedModule) -> spec_fn(Text) -> Set<NodeModel> {
    |name: Text| node_if(!new.symbols@.dom().contains(name), path, name)
}

/// The symbols that changed for types: those that are new or differ, and those that are gone.
pub open spec fn changed_types(
    old_path: Path,
    path: Path,
    old: ParsedModule,
    new: ParsedModule,
) -> Set<NodeModel> {
    union_over(new.symbols.keys(), retyped_node(path, old, new)).union(
        union_over(old.symbols.keys(), removed_node(old_path, new)),
    )
}

pub open spec fn rewritten_node(path: Path, old: ParsedModule, new: ParsedModule) -> spec_fn(
    Text,
) -> Set<NodeModel> {
    |name: Text| node_if(is_rewritten(old, new, name) && new.symbols@[name].runtime, path, name)
}

pub open spec fn removed_runtime_node(
    path: Path,
    old: ParsedModule,
    new: ParsedModule,
) -> spec_fn(Text) -> Set<NodeModel> {
    |name: Text|
        node_if(!new.symbols@.dom().contains(name) && old.symbols@[name].runtime, path, name)
}

/// The first `n` keys of an order that occur among `keys`.
pub open spec fn common(order: Seq<Text>, keys: Set<Text>, n: int) -> Seq<Text>
    decreases n,
{
    if n <= 0 {
        Seq::empty()
    } else if keys.contains(order[n - 1]) {
        common(order, keys, n - 1).push(order[n - 1])
    } else {
        common(order, keys, n - 1)
    }
}

/// The entries that two registries share stand in different orders.
pub open spec fn is_reordered(old: RegistryInfo, new: RegistryInfo) -> bool {
    let a = texts(old.entry_order@);
    let b = texts(new.entry_order@);
    common(a, new.entries@.dom(), a.len() as int) != common(b, old.entries@.dom(), b.len() as int)
}

/// An entry is new or its text differs.
pub open spec fn rewritten_entry(
    path: Path,
    registry: Text,
    old: RegistryInfo,
    new: RegistryInfo,
) -> spec_fn(Text) -> Set<NodeModel> {
    |key: Text|
        node_if(
            !old.entries@.dom().contains(key) || old.entries@[key].fingerprint@
                != new.entries@[key].fingerprint@,
            path,
            entry_symbol(registry, key),
        )
}

pub open spec fn removed_entry(path: Path, registry: Text, new: RegistryInfo) -> spec_fn(
    Text,
) -> Set<NodeModel> {
    |key: Text| node_if(!new.entries@.dom().contains(key), path, entry_symbol(registry, key))
}

/// What changed in one registry: its order, and single entries; all entries where it was no
/// registry before or is none any more.
pub open spec fn changed_registry(
    old_path: Path,
    path: Path,
    old: ParsedModule,
    new: ParsedModule,
) -> spec_fn(Text) -> Set<NodeModel> {
    |name: Text|
        {
            let was = old.registries@.dom().contains(name);
            let is = new.registries@.dom().contains(name);
            let before = old.registries@[name];
            let after = new.registries@[name];
            if was && is {
                node_if(is_reordered(before, after), path, name).union(
                    union_over(after.entries.keys(), rewritten_entry(path, name, before, after)),
                ).union(union_over(before.entries.keys(), removed_entry(old_path, name, after)))
            } else if is {
                union_over(after.entries.keys(), entry_node(path, name))
            } else if was {
                union_over(before.entries.keys(), entry_node(old_path, name))
            } else {
                Set::empty()
            }
        }
}

/// The symbols that changed at run time.
pub open spec fn changed_runtime(
    old_path: Path,
    path: Path,
    old: ParsedModule,
    new: ParsedModule,
) -> Set<NodeModel> {
    union_over(new.symbols.keys(), rewritten_node(path, old, new)).union(
        union_over(old.symbols.keys(), removed_runtime_node(old_path, old, new)),
    ).union(union_over(old.registries.keys(), changed_registry(old_path, path, old, new))).union(
        union_over(new.registries.keys(), changed_registry(old_path, path, old, new)),
    )
}

fn seed(seeds: &mut KeySet<Node>, holds: bool, path: &FilePath, name: &str)
    ensures
        final(seeds)@ == old(seeds)@.union(node_if(holds, path@, name@)),
{
    let ghost start = seeds@;
    if holds {
        seeds.insert(Node::new(path.dup(), name.to_owned()));
    }
    assert(seeds@ =~= start.union(node_if(holds, path@, name@)));
}

fn add_registry_entries(
    seeds: &mut KeySet<Node>,
    path: &FilePath,
    registry: &str,
    entries: &KeyMap<String, RegistryEntryInfo>,
)
    ensures
        final(seeds)@ == old(seeds)@.union(union_over(entries.keys(), entry_node(path@, registry@))),
{
    let ghost start = seeds@;
    let ghost keys = entries.keys();
    let ghost f = entry_node(path@, registry@);
    let n = entries.len();
    let mut i: usize = 0;
    proof {
        union_over_none(keys.take(0), f);
        assert(start.union(Set::empty()) =~= start);
    }
    while i < n
        invariant
            i <= n,
            n == keys.len(),
            keys == entries.keys(),
            f == entry_node(path@, registry@),
            seeds@ == start.union(union_over(keys.take(i as int), f)),
        decreases n - i,
    {
        let name = registry_entry_symbol(registry, entries.key_at(i).as_str());
        seed(seeds, true, path, name.as_str());
        proof {
            union_over_next(keys, f, i as int);
            assert(seeds@ =~= start.union(union_over(keys.take(i + 1), f)));
        }
        i += 1;
    }
    proof {
        union_over_all(keys, f, n as int);
    }
}

/// Adds everything of a module.
pub(crate) fn add_all_symbols(
    runtime_seeds: &mut KeySet<Node>,
    type_seeds: &mut KeySet<Node>,
    path: &FilePath,
    module: &ParsedModule,
)
    ensures
        final(runtime_seeds)@ == old(runtime_seeds)@.union(all_runtime(path@, *module)),
        final(type_seeds)@ == old(type_seeds)@.union(all_types(path@, *module)),
{
    let ghost runtime = runtime_seeds@;
    let ghost types = type_seeds@;
    let ghost keys = module.symbols.keys();
    let ghost f = symbol_node(path@);
    let ghost g = runtime_node(path@, *module);
    let n = module.symbols.len();
    let mut i: usize = 0;
    proof {
        union_over_none(keys.take(0), f);
        union_over_none(keys.take(0), g);
        assert(types.union(Set::empty()) =~= types);
        assert(runtime.union(Set::empty()) =~= runtime);
    }
    while i < n
        invariant
            i <= n,
            n == keys.len(),
            keys == module.symbols.keys(),
            f == symbol_node(path@),
            g == runtime_node(path@, *module),
            type_seeds@ == types.union(union_over(keys.take(i as int), f)),
            runtime_seeds@ == runtime.union(union_over(keys.take(i as int), g)),
        decreases n - i,
    {
        let name = module.symbols.key_at(i);
        let symbol = module.symbols.value_at(i);
        seed(type_seeds, true, path, name.as_str());
        seed(runtime_seeds, symbol.runtime, path, name.as_str());
        proof {
            union_over_next(keys, f, i as int);
            union_over_next(keys, g, i as int);
            assert(type_seeds@ =~= types.union(union_over(keys.take(i + 1), f)));
            assert(runtime_seeds@ =~= runtime.union(union_over(keys.take(i + 1), g)));
        }
        i += 1;
    }
    proof {
        union_over_all(keys, f, n as int);
        union_over_all(keys, g, n as int);
    }
    let ghost middle = runtime_seeds@;
    let ghost names = module.registries.keys();
    let ghost h = registry_entries(path@, *module);
    let m = module.registries.len();
    let mut k: usize = 0;
    proof {
        union_over_none(names.take(0), h);
        assert(middle.union(Set::empty()) =~= middle);
    }
    while k < m
        invariant
            k <= m,
            m == names.len(),
            names == module.registries.keys(),
            h == registry_entries(path@, *module),
            runtime_seeds@ == middle.union(union_over(names.take(k as int), h)),
        decreases m - k,
    {
        let name = module.registries.key_at(k);
        let registry = module.registries.value_at(k);
        add_registry_entries(runtime_seeds, path, name.as_str(), &registry.entries);
        proof {
            union_over_next(names, h, k as int);
            assert(runtime_seeds@ =~= middle.union(union_over(names.take(k + 1), h)));
        }
        k += 1;
    }
    proof {
        union_over_all(names, h, m as int);
        assert(runtime_seeds@ =~= runtime.union(all_runtime(path@, *module)));
    }
}

fn common_order(order: &Vec<String>, entries: &KeyMap<String, RegistryEntryInfo>) -> (r: Vec<String>)
    ensures
        texts(r@) == common(texts(order@), entries@.dom(), order@.len() as int),
{
    let ghost all = texts(order@);
    let mut out: Vec<String> = Vec::new();
    let mut i: usize = 0;
    assert(texts(out@) =~= Seq::empty());
    while i < order.len()
        invariant
            i <= order.len(),
            all == texts(order@),
            texts(out@) == common(all, entries@.dom(), i as int),
        decreases order.len() - i,
    {
        assert(all[i as int] == order@[i as int]@);
        if entries.contains_key(&order[i]) {
            let ghost before = texts(out@);
            out.push(order[i].clone());
            assert(texts(out@) =~= before.push(all[i as int]));
        }
        i += 1;
    }
    out
}

fn same_texts(a: &Vec<String>, b: &Vec<String>) -> (r: bool)
    ensures
        r == (texts(a@) == texts(b@)),
{
    let ghost x = texts(a@);
    let ghost y = texts(b@);
    assert(x.len() == a@.len() && y.len() == b@.len());
    if a.len() != b.len() {
        return false;
    }
    let mut i: usize = 0;
    while i < a.len()
        invariant
            i <= a.len(),
            a.len() == b.len(),
            x == texts(a@),
            y == texts(b@),
            forall|k: int| 0 <= k < i ==> #[trigger] x[k] == y[k],
        decreases a.len() - i,
    {
        assert(x[i as int] == a@[i as int]@ && y[i as int] == b@[i as int]@);
        if a[i] != b[i] {
            return false;
        }
        i += 1;
    }
    assert(x =~= y);
    true
}

fn add_changed_entries(
    seeds: &mut KeySet<Node>,
    old_path: &FilePath,
    path: &FilePath,
    name: &String,
    before: &RegistryInfo,
    after: &RegistryInfo,
)
    ensures
        final(seeds)@ == old(seeds)@.union(
            node_if(is_reordered(*before, *after), path@, name@).union(
                union_over(
                    after.entries.keys(),
                    rewritten_entry(path@, name@, *before, *after),
                ),
            ).union(union_over(before.entries.keys(), removed_entry(old_path@, name@, *after))),
        ),
{
    let ghost start = seeds@;
    let a = common_order(&before.entry_order, &after.entries);
    let b = common_order(&after.entry_order, &before.entries);
    let reordered = !same_texts(&a, &b);
    proof {
        assert(texts(before.entry_order@).len() == before.entry_order@.len());
        assert(texts(after.entry_order@).len() == after.entry_order@.len());
        assert(reordered == is_reordered(*before, *after));
    }
    seed(seeds, reordered, path, name.as_str());
    let ghost first = seeds@;
    let ghost keys = after.entries.keys();
    let ghost f = rewritten_entry(path@, name@, *before, *after);
    let n = after.entries.len();
    let mut i: usize = 0;
    proof {
        union_over_none(keys.take(0), f);
        assert(first.union(Set::empty()) =~= first);
    }
    while i < n
        invariant
            i <= n,
            n == keys.len(),
            keys == after.entries.keys(),
            f == rewritten_entry(path@, name@, *before, *after),
            seeds@ == first.union(union_over(keys.take(i as int), f)),
        decreases n - i,
    {
        let key = after.entries.key_at(i);
        let entry = after.entries.value_at(i);
        let changed = match before.entries.get(key) {
            Some(old_entry) => old_entry.fingerprint != entry.fingerprint,
            None => true,
        };
        let symbol = registry_entry_symbol(name.as_str(), key.as_str());
        seed(seeds, changed, path, symbol.as_str());
        proof {
            union_over_next(keys, f, i as int);
            assert(seeds@ =~= first.union(union_over(keys.take(i + 1), f)));
        }
        i += 1;
    }
    proof {
        union_over_all(keys, f, n as int);
    }
    let ghost second = seeds@;
    let ghost olds = before.entries.keys();
    let ghost g = removed_entry(old_path@, name@, *after);
    let m = before.entries.len();
    let mut k: usize = 0;
    proof {
        union_over_none(olds.take(0), g);
        assert(second.union(Set::empty()) =~= second);
    }
    while k < m
        invariant
            k <= m,
            m == olds.len(),
            olds == before.entries.keys(),
            g == removed_entry(old_path@, name@, *after),
            seeds@ == second.union(union_over(olds.take(k as int), g)),
        decreases m - k,
    {
        let key = before.entries.key_at(k);
        let removed = !after.entries.contains_key(key);
        let symbol = registry_entry_symbol(name.as_str(), key.as_str());
        seed(seeds, removed, old_path, symbol.as_str());
        proof {
            union_over_next(olds, g, k as int);
            assert(seeds@ =~= second.union(union_over(olds.take(k + 1), g)));
        }
        k += 1;
    }
    proof {
        union_over_all(olds, g, m as int);
        assert(seeds@ =~= start.union(
            node_if(is_reordered(*before, *after), path@, name@).union(union_over(keys, f)).union(
                union_over(olds, g),
            ),
        ));
    }
}

fn add_changed_registry(
    seeds: &mut KeySet<Node>,
    old_path: &FilePath,
    path: &FilePath,
    old_module: &ParsedModule,
    new_module: &ParsedModule,
    name: &String,
)
    ensures
        final(seeds)@ == old(seeds)@.union(
            changed_registry(old_path@, path@, *old_module, *new_module)(name@),
        ),
{
    let ghost start = seeds@;
    match (old_module.registries.get(name), new_module.registries.get(name)) {
        (Some(before), Some(after)) => {
            add_changed_entries(seeds, old_path, path, name, before, after);
        },
        (None, Some(after)) => {
            add_registry_entries(seeds, path, name.as_str(), &after.entries);
        },
        (Some(before), None) => {
            add_registry_entries(seeds, old_path, name.as_str(), &before.entries);
        },
        (None, None) => {
            assert(seeds@ =~= start.union(Set::empty()));
        },
    }
}

fn add_changed_registries(
    seeds: &mut KeySet<Node>,
    old_path: &FilePath,
    path: &FilePath,
    old_module: &ParsedModule,
    new_module: &ParsedModule,
    registries: &KeyMap<String, RegistryInfo>,
)
    ensures
        final(seeds)@ == old(seeds)@.union(
            union_over(
                registries.keys(),
                changed_registry(old_path@, path@, *old_module, *new_module),
            ),
        ),
{
    let ghost start = seeds@;
    let ghost keys = registries.keys();
    let ghost f = changed_registry(old_path@, path@, *old_module, *new_module);
    let n = registries.len();
    let mut i: usize = 0;
    proof {
        union_over_none(keys.take(0), f);
        assert(start.union(Set::empty()) =~= start);
    }
    while i < n
        invariant
            i <= n,
            n == keys.len(),
            keys == registries.keys(),
            f == changed_registry(old_path@, path@, *old_module, *new_module),
            seeds@ == start.union(union_over(keys.take(i as int), f)),
        decreases n - i,
    {
        add_changed_registry(
            seeds,
            old_path,
            path,
            old_module,
            new_module,
            registries.key_at(i),
        );
        proof {
            union_over_next(keys, f, i as int);
            assert(seeds@ =~= start.union(union_over(keys.take(i + 1), f)));
        }
        i += 1;
    }
    proof {
        union_over_all(keys, f, n as int);
    }
}

/// Adds the symbols that differ between two versions of a module.
pub fn add_changed_symbols(
    runtime_seeds: &mut KeySet<Node>,
    type_seeds: &mut KeySet<Node>,
    old_path: &FilePath,
    current_path: &FilePath,
    old_module: &ParsedModule,
    current: &ParsedModule,
)
    ensures
        final(runtime_seeds)@ == old(runtime_seeds)@.union(
            changed_runtime(old_path@, current_path@, *old_module, *current),
        ),
        final(type_seeds)@ == old(type_seeds)@.union(
            changed_types(old_path@, current_path@, *old_module, *current),
        ),
{
    let ghost runtime = runtime_seeds@;
    let ghost types = type_seeds@;
    let ghost keys = current.symbols.keys();
    let ghost f = retyped_node(current_path@, *old_module, *current);
    let ghost g = rewritten_node(current_path@, *old_module, *current);
    let n = current.symbols.len();
    let mut i: usize = 0;
    proof {
        union_over_none(keys.take(0), f);
        union_over_none(keys.take(0), g);
        assert(types.union(Set::empty()) =~= types);
        assert(runtime.union(Set::empty()) =~= runtime);
    }
    while i < n
        invariant
            i <= n,
            n == keys.len(),
            keys == current.symbols.keys(),
            f == retyped_node(current_path@, *old_module, *current),
            g == rewritten_node(current_path@, *old_module, *current),
            type_seeds@ == types.union(union_over(keys.take(i as int), f)),
            runtime_seeds@ == runtime.union(union_over(keys.take(i as int), g)),
        decreases n - i,
    {
        let name = current.symbols.key_at(i);
        let symbol = current.symbols.value_at(i);
        let rewritten = match old_module.symbols.get(name) {
            Some(before) => before.fingerprint != symbol.fingerprint,
            None => true,
        };
        let retyped = match (old_module.registries.get(name), current.registries.get(name)) {
            (Some(before), Some(after)) => before.full_fingerprint != after.full_fingerprint,
            _ => rewritten,
        };
        seed(type_seeds, retyped, current_path, name.as_str());
        seed(runtime_seeds, rewritten && symbol.runtime, current_path, name.as_str());
        proof {
            union_over_next(keys, f, i as int);
            union_over_next(keys, g, i as int);
            assert(type_seeds@ =~= types.union(union_over(keys.take(i + 1), f)));
            assert(runtime_seeds@ =~= runtime.union(union_over(keys.take(i + 1), g)));
        }
        i += 1;
    }
    proof {
        union_over_all(keys, f, n as int);
        union_over_all(keys, g, n as int);
    }
    let ghost runtime_2 = runtime_seeds@;
    let ghost types_2 = type_seeds@;
    let ghost olds = old_module.symbols.keys();
    let ghost p = removed_node(old_path@, *current);
    let ghost q = removed_runtime_node(old_path@, *old_module, *current);
    let m = old_module.symbols.len();
    let mut k: usize = 0;
    proof {
        union_over_none(olds.take(0), p);
        union_over_none(olds.take(0), q);
        assert(types_2.union(Set::empty()) =~= types_2);
        assert(runtime_2.union(Set::empty()) =~= runtime_2);
    }
    while k < m
        invariant
            k <= m,
            m == olds.len(),
            olds == old_module.symbols.keys(),
            p == removed_node(old_path@, *current),
            q == removed_runtime_node(old_path@, *old_module, *current),
            type_seeds@ == types_2.union(union_over(olds.take(k as int), p)),
            runtime_seeds@ == runtime_2.union(union_over(olds.take(k as int), q)),
        decreases m - k,
    {
        let name = old_module.symbols.key_at(k);
        let symbol = old_module.symbols.value_at(k);
        let removed = !current.symbols.contains_key(name);
        seed(type_seeds, removed, old_path, name.as_str());
        seed(runtime_seeds, removed && symbol.runtime, old_path, name.as_str());
        proof {
            union_over_next(olds, p, k as int);
            union_over_next(olds, q, k as int);
            assert(type_seeds@ =~= types_2.union(union_over(olds.take(k + 1), p)));
            assert(runtime_seeds@ =~= runtime_2.union(union_over(olds.take(k + 1), q)));
        }
        k += 1;
    }
    proof {
        union_over_all(olds, p, m as int);
        union_over_all(olds, q, m as int);
    }
    add_changed_registries(
        runtime_seeds,
        old_path,
        current_path,
        old_module,
        current,
        &old_module.registries,
    );
    add_changed_registries(
        runtime_seeds,
        old_path,
        current_path,
        old_module,
        current,
        &current.registries,
    );
    proof {
        assert(runtime_seeds@ =~= runtime.union(
            changed_runtime(old_path@, current_path@, *old_module, *current),
        ));
        assert(type_seeds@ =~= types.union(
            changed_types(old_path@, current_path@, *old_module, *current),
        ));
    }
}

proof fn entry_symbols_are_bracketed(registry: Text, key: Text)
    ensures
        entry_symbol(registry, key).contains('['),
{
    reveal_strlit("[");
    assert("["@[0] == '[');
    assert(entry_symbol(registry, key)[registry.len() as int] == '[');
}

/// A symbol whose text is unchanged, and which was and is no registry, is no seed. The names of
/// symbols hold no bracket.
pub proof fn unchanged_symbols_are_no_seeds(
    path: Path,
    old: ParsedModule,
    new: ParsedModule,
    name: Text,
)
    requires
        new.symbols@.dom().contains(name),
        old.symbols@.dom().contains(name),
        old.symbols@[name].fingerprint@ == new.symbols@[name].fingerprint@,
        !old.registries@.dom().contains(name),
        !new.registries@.dom().contains(name),
        !name.contains('['),
    ensures
        !changed_runtime(path, path, old, new).contains((path, name)),
        !changed_types(path, path, old, new).contains((path, name)),
{
    let n = (path, name);
    let f = changed_registry(path, path, old, new);
    assert forall|registry: Text, key: Text| name != #[trigger] entry_symbol(registry, key) by {
        entry_symbols_are_bracketed(registry, key);
    }
    assert forall|registry: Text| #[trigger] f(registry).contains(n) implies registry == name
        && old.registries@.dom().contains(registry) by {
        let before = old.registries@[registry];
        let after = new.registries@[registry];
        if old.registries@.dom().contains(registry) && new.registries@.dom().contains(registry) {
            assert(!union_over(
                after.entries.keys(),
                rewritten_entry(path, registry, before, after),
            ).contains(n));
            assert(!union_over(
                before.entries.keys(),
                removed_entry(path, registry, after),
            ).contains(n));
        } else if new.registries@.dom().contains(registry) {
            assert(!union_over(after.entries.keys(), entry_node(path, registry)).contains(n));
        } else if old.registries@.dom().contains(registry) {
            assert(!union_over(before.entries.keys(), entry_node(path, registry)).contains(n));
        }
    }
}

/// A registry that only gained an entry, at its end, seeds that entry at run time and nothing
/// else.
pub proof fn added_entry_seeds_only_itself(
    path: Path,
    old: ParsedModule,
    new: ParsedModule,
    registry: Text,
    added: Text,
)
    requires
        old.registries@.dom().contains(registry),
        new.registries@.dom().contains(registry),
        new.registries@[registry].entries@.dom() == old.registries@[registry].entries@.dom().insert(
            added,
        ),
        !old.registries@[registry].entries@.dom().contains(added),
        forall|k: Text| #[trigger]
            old.registries@[registry].entries@.dom().contains(k)
                ==> new.registries@[registry].entries@[k].fingerprint@
                == old.registries@[registry].entries@[k].fingerprint@,
        texts(new.registries@[registry].entry_order@) == texts(
            old.registries@[registry].entry_order@,
        ).push(added),
        forall|i: int|
            0 <= i < old.registries@[registry].entry_order@.len()
                ==> old.registries@[registry].entries@.dom().contains(
                #[trigger] texts(old.registries@[registry].entry_order@)[i],
            ),
    ensures
        changed_registry(path, path, old, new)(registry) == node_if(
            true,
            path,
            entry_symbol(registry, added),
        ),
{
    let before = old.registries@[registry];
    let after = new.registries@[registry];
    let a = texts(before.entry_order@);
    let b = texts(after.entry_order@);
    before.entries.dom_is_finite();
    after.entries.dom_is_finite();
    common_of_known(a, after.entries@.dom(), a.len() as int);
    common_of_known(a, before.entries@.dom(), a.len() as int);
    common_prefix(a, b, before.entries@.dom(), a.len() as int);
    assert(common(b, before.entries@.dom(), b.len() as int) == common(
        b,
        before.entries@.dom(),
        a.len() as int,
    ));
    assert(!is_reordered(before, after));
    let f = rewritten_entry(path, registry, before, after);
    let g = removed_entry(path, registry, after);
    let keys = after.entries.keys();
    let olds = before.entries.keys();
    let wanted = node_if(true, path, entry_symbol(registry, added));
    assert(union_over(olds, g) =~= Set::empty()) by {
        assert forall|i: int| 0 <= i < olds.len() implies #[trigger] g(olds[i]) == Set::<
            NodeModel,
        >::empty() by {
            assert(olds.to_set().contains(olds[i]));
        }
    }
    assert(union_over(keys, f) =~= wanted) by {
        assert(keys.to_set().contains(added));
        let i = choose|i: int| 0 <= i < keys.len() && keys[i] == added;
        assert(f(keys[i]) == wanted);
        assert forall|j: int| 0 <= j < keys.len() && keys[j] != added implies #[trigger] f(keys[j])
            == Set::<NodeModel>::empty() by {
            assert(keys.to_set().contains(keys[j]));
            assert(before.entries@.dom().contains(keys[j]));
        }
    }
    assert(changed_registry(path, path, old, new)(registry) =~= wanted);
}

proof fn common_of_known(order: Seq<Text>, keys: Set<Text>, n: int)
    requires
        0 <= n <= order.len(),
        forall|i: int| 0 <= i < order.len() ==> keys.contains(#[trigger] order[i]),
    ensures
        common(order, keys, n) == order.take(n),
    decreases n,
{
    if n > 0 {
        common_of_known(order, keys, n - 1);
        assert(order.take(n) =~= order.take(n - 1).push(order[n - 1]));
    } else {
        assert(order.take(0) =~= Seq::empty());
    }
}

proof fn common_prefix(a: Seq<Text>, b: Seq<Text>, keys: Set<Text>, n: int)
    requires
        0 <= n <= a.len(),
        a.len() <= b.len(),
        forall|i: int| 0 <= i < a.len() ==> #[trigger] a[i] == b[i],
    ensures
        common(a, keys, n) == common(b, keys, n),
    decreases n,
{
    if n > 0 {
        common_prefix(a, b, keys, n - 1);
        assert(a[n - 1] == b[n - 1]);
    }
}

} // verus!
