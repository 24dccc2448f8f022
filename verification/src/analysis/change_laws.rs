//! What holds of changed files and of what is said of them.
use vstd::prelude::*;

use crate::analysis::describe::{
    entry_line, entry_lines, field_line, field_lines, manifest_lines, section_lines, section_names,
    value_in,
};
use crate::analysis::laws::{
    declarations_change_at_run_time, each_change_counts, names_build_input, new_modules_are_seeds,
    types_change_with_their_text, Text,
};
use crate::analysis::seeds::{no_seeds, SeedsModel};
use crate::analysis::symbols::{changed_runtime, changed_types};
use crate::analysis::{
    found, has_texts, is_dependency, old_location, was, were, ChangeSeeds, ChangeTexts, Ground,
};
use crate::collections::{ascending_list, ascending_list_fits};
use crate::data::DataModel;
use crate::git::KindModel;
use crate::graph::links::edges_in;
use crate::graph::node::NodeModel;
use crate::graph::resolve::normal;
use crate::graph::targets::{target_models, target_of};
use crate::lookup::{alike, names_are_finite, names_in, under};
use crate::package_manager::{manager_of, managers_are_known_by_their_lockfiles, PackageManager};
use crate::parser::assemble::{is_test_path, parsed};
use crate::parser::syntax::is_source_extension;
use crate::parser::{ParsedModule, MODULE_INIT};
use crate::path::{extension_of, joined_path, name_of};
use crate::query::laws::{is_deepest_above, the_deepest_package_owns};
use crate::workspace::owner::{owner_of, relative_to, Path};

verus! {

/// Something depends on the file at this place.
pub open spec fn is_used(ground: Ground, place: Path) -> bool {
    let node = (normal(ground.graph.disk, place), MODULE_INIT@);
    ||| exists|consumer: NodeModel| #[trigger]
        edges_in(ground.graph.edges).contains((consumer, node))
    ||| exists|consumer: NodeModel| #[trigger]
        edges_in(ground.graph.type_edges).contains((consumer, node))
}

/// A file that is no module, no lockfile, no manifest and no other input of a build, that holds no
/// code of a crate, and that nothing depends on, where it is and where it was.
pub open spec fn is_inert(ground: Ground, c: ChangeTexts) -> bool {
    let path = c.change.path@;
    &&& !is_source_extension(extension_of(path))
    &&& extension_of(path) != Some("rs"@)
    &&& !is_used(ground, path)
    &&& match name_of(path) {
        Some(name) => manager_of(name) is None && !names_build_input(name) && name
            != "package.json"@,
        None => false,
    }
    &&& match c.change.kind@ {
        KindModel::Renamed(old_path) => !is_used(ground, joined_path(ground.root, old_path))
            && name_of(old_path) != Some("package.json"@),
        _ => true,
    }
}

proof fn inert_changes_add_nothing(
    ground: Ground,
    changes: Seq<ChangeTexts>,
    olds: Seq<Option<ParsedModule>>,
    n: int,
)
    requires
        n <= changes.len(),
        forall|k: int| 0 <= k < changes.len() ==> is_inert(ground, #[trigger] changes[k]),
    ensures
        ground.seeds(changes, olds, n) == no_seeds(),
    decreases n,
{
    if n > 0 {
        inert_changes_add_nothing(ground, changes, olds, n - 1);
        let c = changes[n - 1];
        assert(is_inert(ground, c));
        assert(ground.input_nodes(c) =~= Set::empty()) by {
            assert forall|m: NodeModel| !ground.input_nodes(c).contains(m) by {
                if ground.input_nodes(c).contains(m) {
                    if is_dependency(ground.graph.edges, m) {
                        let consumer = choose|consumer: NodeModel| #[trigger]
                            edges_in(ground.graph.edges).contains((consumer, m));
                        assert(edges_in(ground.graph.edges).contains((consumer, m)));
                    } else {
                        let consumer = choose|consumer: NodeModel| #[trigger]
                            edges_in(ground.graph.type_edges).contains((consumer, m));
                        assert(edges_in(ground.graph.type_edges).contains((consumer, m)));
                    }
                }
            }
        }
        let s = ground.seeds(changes, olds, n - 1);
        assert(s.nodes.union(ground.input_nodes(c)) =~= s.nodes);
        assert(s.type_nodes.union(ground.input_nodes(c)) =~= s.type_nodes);
        assert(ground.manager(c) is None);
        assert(!ground.is_stray_manifest(c));
        assert(ground.after_change(s, c, olds[n - 1]) == s);
    }
}

/// Files that no module, no build and no package rests on may change: nothing starts from them.
pub proof fn inert_files_start_nothing(
    ground: Ground,
    changes: Seq<ChangeTexts>,
    seeds: ChangeSeeds,
)
    requires
        found(ground, changes, Ok(seeds)),
        forall|k: int| 0 <= k < changes.len() ==> is_inert(ground, #[trigger] changes[k]),
    ensures
        seeds.nodes@ == Set::<NodeModel>::empty(),
        seeds.type_nodes@ == Set::<NodeModel>::empty(),
        seeds.direct_packages@.dom() == Set::<Text>::empty(),
        seeds.diagnostics@.len() == 0,
{
    let olds = choose|olds: Seq<Option<ParsedModule>>| #[trigger]
        were(ground.root, changes, olds) && olds.len() == changes.len() && seeds@ == ground.seeds(
            changes,
            olds,
            changes.len() as int,
        );
    inert_changes_add_nothing(ground, changes, olds, changes.len() as int);
    assert(seeds@.direct.dom() =~= Set::empty());
    assert forall|name: Text| !seeds.direct_packages@.dom().contains(name) by {
        if seeds.direct_packages@.dom().contains(name) {
            assert(seeds@.direct.dom().contains(name));
        }
    }
    assert(seeds@.findings.len() == 0);
}

/// A source file of a package that is a target, outside its tests, where no dependency of the
/// target is known.
pub open spec fn lies_in_unlinked(ground: Ground, path: Path, i: int) -> bool {
    let package = ground.packages[i];
    let inside = relative_to(path, package.dir@);
    &&& is_deepest_above(ground.packages, path, i)
    &&& !is_test_path(inside)
    &&& inside.contains("src"@) || (package.entrypoint is Some && package.entrypoint->0@ == path)
    &&& exists|t: int|
        0 <= t < ground.graph.targets@.len() && (#[trigger] ground.graph.targets@[t]).package@
            == package.name@
    &&& !ground.graph.edges@.dom().contains((seq!["<target>"@], package.name@))
}

/// A source of a target that nothing is known to lead to concerns the target as a whole.
pub proof fn sources_of_unlinked_targets_concern_them(
    ground: Ground,
    changes: Seq<ChangeTexts>,
    seeds: ChangeSeeds,
    k: int,
    i: int,
)
    requires
        found(ground, changes, Ok(seeds)),
        0 <= k < changes.len(),
        is_source_extension(extension_of(changes[k].change.path@)),
        lies_in_unlinked(ground, changes[k].change.path@, i),
    ensures
        seeds.direct_packages@.dom().contains(ground.packages[i].name@),
{
    let (s, old) = each_change_counts(ground, changes, seeds, k);
    let c = changes[k];
    let package = ground.packages[i];
    the_deepest_package_owns(ground.packages, c.path(), i);
    let list = target_models(ground.graph.targets@);
    let t = choose|t: int|
        0 <= t < ground.graph.targets@.len() && (#[trigger] ground.graph.targets@[t]).package@
            == package.name@;
    assert(list[t].0 == package.name@);
    assert(target_of(package.name@) == (seq!["<target>"@], package.name@));
    assert(ground.is_unlinked(c, package));
    assert(ground.noted_source(s, c).direct.dom().contains(package.name@));
    assert(ground.after_change(s, c, old).direct.dom().contains(package.name@));
    assert(seeds@.direct.dom().contains(package.name@));
}

proof fn sources_concern_no_linked_package(
    ground: Ground,
    changes: Seq<ChangeTexts>,
    olds: Seq<Option<ParsedModule>>,
    n: int,
    name: Text,
)
    requires
        n <= changes.len(),
        forall|k: int|
            0 <= k < changes.len() ==> is_source_extension(
                extension_of((#[trigger] changes[k]).change.path@),
            ),
        forall|k: int, i: int|
            0 <= k < changes.len() && #[trigger] lies_in_unlinked(ground, changes[k].change.path@, i)
                ==> ground.packages[i].name@ != name,
    ensures
        !ground.seeds(changes, olds, n).direct.dom().contains(name),
        ground.seeds(changes, olds, n).findings.len() == 0,
    decreases n,
{
    if n > 0 {
        sources_concern_no_linked_package(ground, changes, olds, n - 1, name);
        let c = changes[n - 1];
        assert(c.is_source());
        if let Some(i) = owner_of(ground.packages, c.path()) {
            the_deepest_package_owns(ground.packages, c.path(), i);
            if ground.is_unlinked(c, ground.packages[i]) {
                let list = target_models(ground.graph.targets@);
                let package = ground.packages[i];
                let t = choose|t: int|
                    0 <= t < list.len() && (#[trigger] list[t]).0 == package.name@;
                assert(ground.graph.targets@[t].package@ == package.name@);
                assert(target_of(package.name@) == (seq!["<target>"@], package.name@));
                assert(lies_in_unlinked(ground, changes[n - 1].change.path@, i));
            }
        }
    }
}

/// Where only sources changed, a package is concerned as a whole only for a source of its own that
/// nothing is known to lead to.
pub proof fn sources_concern_nothing_else_as_a_whole(
    ground: Ground,
    changes: Seq<ChangeTexts>,
    seeds: ChangeSeeds,
    name: Text,
)
    requires
        found(ground, changes, Ok(seeds)),
        forall|k: int|
            0 <= k < changes.len() ==> is_source_extension(
                extension_of((#[trigger] changes[k]).change.path@),
            ),
        forall|k: int, i: int|
            0 <= k < changes.len() && #[trigger] lies_in_unlinked(ground, changes[k].change.path@, i)
                ==> ground.packages[i].name@ != name,
    ensures
        !seeds.direct_packages@.dom().contains(name),
        seeds.diagnostics@.len() == 0,
{
    let olds = choose|olds: Seq<Option<ParsedModule>>| #[trigger]
        were(ground.root, changes, olds) && olds.len() == changes.len() && seeds@ == ground.seeds(
            changes,
            olds,
            changes.len() as int,
        );
    sources_concern_no_linked_package(ground, changes, olds, changes.len() as int, name);
    if seeds.direct_packages@.dom().contains(name) {
        assert(seeds@.direct.dom().contains(name));
    }
    assert(seeds@.findings.len() == 0);
}

/// A module that was renamed: all of its declarations are seeds, where it is and where it was.
pub proof fn renamed_modules_seed_both_places(
    ground: Ground,
    changes: Seq<ChangeTexts>,
    seeds: ChangeSeeds,
    k: int,
    old_path: Path,
    name: Text,
)
    requires
        found(ground, changes, Ok(seeds)),
        0 <= k < changes.len(),
        is_source_extension(extension_of(changes[k].change.path@)),
        changes[k].change.kind@ == KindModel::Renamed(old_path),
        changes[k].before is Some,
        ground.graph.modules@.dom().contains(normal(ground.graph.disk, changes[k].change.path@)),
        ground.base is Some,
        ground.base->0.modules@.dom().contains(joined_path(ground.root, old_path)),
    ensures
        ({
            let here = normal(ground.graph.disk, changes[k].change.path@);
            let there = joined_path(ground.root, old_path);
            let new = ground.graph.modules@[here];
            let old = ground.base->0.modules@[there];
            &&& new.symbols@.dom().contains(name) ==> seeds.type_nodes@.contains((here, name)) && (
            new.symbols@[name].runtime ==> seeds.nodes@.contains((here, name)))
            &&& old.symbols@.dom().contains(name) ==> seeds.type_nodes@.contains((there, name)) && (
            old.symbols@[name].runtime ==> seeds.nodes@.contains((there, name)))
        }),
{
    let (s, old) = each_change_counts(ground, changes, seeds, k);
    let here = normal(ground.graph.disk, changes[k].path());
    let there = joined_path(ground.root, old_path);
    new_modules_are_seeds(here, ground.graph.modules@[here], here, name);
    new_modules_are_seeds(there, ground.base->0.modules@[there], there, name);
}

/// The texts of a change make a difference only where they are asked for.
pub proof fn texts_matter_where_they_are_asked_for(
    ground: Ground,
    s: SeedsModel,
    a: ChangeTexts,
    b: ChangeTexts,
)
    requires
        a.change == b.change,
        !has_texts(a.change.path@),
    ensures
        ground.after_change(s, a, None) == ground.after_change(s, b, None),
{
    assert(a.description() == b.description());
    assert(ground.input_nodes(a) =~= ground.input_nodes(b));
    if let Some(manager) = ground.manager(a) {
        reveal_strlit("");
        reveal_strlit("pnpm-lock.yaml");
        assert(""@.len() == 0 && "pnpm-lock.yaml"@.len() == 14);
        managers_are_known_by_their_lockfiles(a.name());
        assert(manager != PackageManager::Pnpm);
    }
}

proof fn entries_are_told(
    section: Text,
    noun: Text,
    old: DataModel,
    new: DataModel,
    names: Seq<Text>,
    n: int,
    i: int,
)
    requires
        0 <= i < n <= names.len(),
    ensures
        match entry_line(
            noun,
            names[i],
            value_in(old, section, names[i]),
            value_in(new, section, names[i]),
        ) {
            Some(line) => entry_lines(section, noun, old, new, names, n).contains(line),
            None => true,
        },
    decreases n,
{
    let now = entry_lines(section, noun, old, new, names, n);
    let before = entry_lines(section, noun, old, new, names, n - 1);
    if i < n - 1 {
        entries_are_told(section, noun, old, new, names, n - 1, i);
        if let Some(line) = entry_line(
            noun,
            names[i],
            value_in(old, section, names[i]),
            value_in(new, section, names[i]),
        ) {
            let k = choose|k: int| 0 <= k < before.len() && before[k] == line;
            assert(now[k] == line);
        }
    } else {
        if let Some(line) = entry_line(
            noun,
            names[i],
            value_in(old, section, names[i]),
            value_in(new, section, names[i]),
        ) {
            assert(now[before.len() as int] == line);
        }
    }
}

/// A section of a manifest with what its entries are called.
pub open spec fn is_told_as(section: Text, noun: Text) -> bool {
    ||| section == "dependencies"@ && noun == "dependency"@
    ||| section == "devDependencies"@ && noun == "development dependency"@
    ||| section == "peerDependencies"@ && noun == "peer dependency"@
    ||| section == "optionalDependencies"@ && noun == "optional dependency"@
    ||| section == "scripts"@ && noun == "script"@
}

/// Every entry of a section that a manifest gained, lost or changed is told by its name.
pub proof fn changed_entries_are_told(
    old: DataModel,
    new: DataModel,
    section: Text,
    noun: Text,
    name: Text,
)
    requires
        is_told_as(section, noun),
        section_names(old, section).contains(name) || section_names(new, section).contains(name),
    ensures
        match (value_in(old, section, name), value_in(new, section, name)) {
            (None, Some(_)) => exists|line: Text| #[trigger]
                manifest_lines(old, new).contains(line) && ("added "@ + noun + " `"@ + name
                    + "` = "@).is_prefix_of(line),
            (Some(_), None) => manifest_lines(old, new).contains(
                "removed "@ + noun + " `"@ + name + "`"@,
            ),
            (Some(a), Some(b)) => alike(a, b) || exists|line: Text| #[trigger]
                manifest_lines(old, new).contains(line) && ("changed "@ + noun + " `"@ + name
                    + "` from "@).is_prefix_of(line),
            (None, None) => true,
        },
{
    let all = section_names(old, section).union(section_names(new, section));
    if let Some(part) = under(old, section) {
        names_are_finite(part);
    }
    if let Some(part) = under(new, section) {
        names_are_finite(part);
    }
    let names = ascending_list::<String>(all);
    ascending_list_fits::<String>(all);
    assert(names.to_set().contains(name));
    let i = choose|i: int| 0 <= i < names.len() && names[i] == name;
    entries_are_told(section, noun, old, new, names, names.len() as int, i);
    let one = section_lines("dependencies"@, "dependency"@, old, new);
    let two = section_lines("devDependencies"@, "development dependency"@, old, new);
    let three = section_lines("peerDependencies"@, "peer dependency"@, old, new);
    let four = section_lines("optionalDependencies"@, "optional dependency"@, old, new);
    let five = section_lines("scripts"@, "script"@, old, new);
    let keys = ascending_list::<String>(names_in(old).union(names_in(new)));
    let six = field_lines(old, new, keys, keys.len() as int);
    let lines = section_lines(section, noun, old, new);
    let before = value_in(old, section, name);
    let after = value_in(new, section, name);
    if let Some(line) = entry_line(noun, name, before, after) {
        let k = choose|k: int| 0 <= k < lines.len() && lines[k] == line;
        let told = one + two + three + four + five + six;
        let start = if section == "dependencies"@ && noun == "dependency"@ {
            0int
        } else if section == "devDependencies"@ && noun == "development dependency"@ {
            one.len() as int
        } else if section == "peerDependencies"@ && noun == "peer dependency"@ {
            (one.len() + two.len()) as int
        } else if section == "optionalDependencies"@ && noun == "optional dependency"@ {
            (one.len() + two.len() + three.len()) as int
        } else {
            (one.len() + two.len() + three.len() + four.len()) as int
        };
        assert(told[start + k] == line);
        assert(told.len() > 0);
        assert(manifest_lines(old, new) == told);
        assert(manifest_lines(old, new).contains(line));
        match (before, after) {
            (None, Some(_)) => {
                let lead = "added "@ + noun + " `"@ + name + "` = "@;
                assert(line.take(lead.len() as int) =~= lead);
                assert(lead.is_prefix_of(line));
            },
            (Some(a), Some(b)) => {
                let lead = "changed "@ + noun + " `"@ + name + "` from "@;
                assert(line.take(lead.len() as int) =~= lead);
                assert(lead.is_prefix_of(line));
            },
            _ => {},
        }
    }
}

proof fn fields_are_told(old: DataModel, new: DataModel, names: Seq<Text>, n: int, i: int)
    requires
        0 <= i < n <= names.len(),
        !crate::analysis::describe::is_section(names[i]),
    ensures
        match field_line(names[i], under(old, names[i]), under(new, names[i])) {
            Some(line) => field_lines(old, new, names, n).contains(line),
            None => true,
        },
    decreases n,
{
    let now = field_lines(old, new, names, n);
    let before = field_lines(old, new, names, n - 1);
    if i < n - 1 {
        fields_are_told(old, new, names, n - 1, i);
        if let Some(line) = field_line(names[i], under(old, names[i]), under(new, names[i])) {
            let k = choose|k: int| 0 <= k < before.len() && before[k] == line;
            assert(now[k] == line);
        }
    } else {
        if let Some(line) = field_line(names[i], under(old, names[i]), under(new, names[i])) {
            assert(now[before.len() as int] == line);
        }
    }
}

/// Every other field that a manifest gained, lost or changed is told by its key.
pub proof fn changed_fields_are_told(old: DataModel, new: DataModel, key: Text)
    requires
        names_in(old).contains(key) || names_in(new).contains(key),
        key != "dependencies"@,
        key != "devDependencies"@,
        key != "peerDependencies"@,
        key != "optionalDependencies"@,
        key != "scripts"@,
    ensures
        match (under(old, key), under(new, key)) {
            (None, Some(_)) => exists|line: Text| #[trigger]
                manifest_lines(old, new).contains(line) && ("added field `"@ + key
                    + "` = "@).is_prefix_of(line),
            (Some(_), None) => manifest_lines(old, new).contains(
                "removed field `"@ + key + "`"@,
            ),
            (Some(a), Some(b)) => alike(a, b) || exists|line: Text| #[trigger]
                manifest_lines(old, new).contains(line) && ("changed field `"@ + key
                    + "`"@).is_prefix_of(line),
            (None, None) => true,
        },
{
    let all = names_in(old).union(names_in(new));
    names_are_finite(old);
    names_are_finite(new);
    let names = ascending_list::<String>(all);
    ascending_list_fits::<String>(all);
    assert(names.to_set().contains(key));
    let i = choose|i: int| 0 <= i < names.len() && names[i] == key;
    fields_are_told(old, new, names, names.len() as int, i);
    let lines = field_lines(old, new, names, names.len() as int);
    let first = section_lines("dependencies"@, "dependency"@, old, new) + section_lines(
        "devDependencies"@,
        "development dependency"@,
        old,
        new,
    ) + section_lines("peerDependencies"@, "peer dependency"@, old, new) + section_lines(
        "optionalDependencies"@,
        "optional dependency"@,
        old,
        new,
    ) + section_lines("scripts"@, "script"@, old, new);
    if let Some(line) = field_line(key, under(old, key), under(new, key)) {
        let k = choose|k: int| 0 <= k < lines.len() && lines[k] == line;
        let told = first + lines;
        assert(told[first.len() + k] == line);
        assert(told.len() > 0);
        assert(manifest_lines(old, new) == told);
        assert(manifest_lines(old, new).contains(line));
        match (under(old, key), under(new, key)) {
            (None, Some(_)) => {
                let lead = "added field `"@ + key + "` = "@;
                assert(line.take(lead.len() as int) =~= lead);
                assert(lead.is_prefix_of(line));
            },
            (Some(a), Some(b)) => {
                let lead = "changed field `"@ + key + "`"@;
                reveal_strlit("`");
                reveal_strlit("` from ");
                assert(line.take(lead.len() as int) =~= lead);
                assert(lead.is_prefix_of(line));
            },
            _ => {},
        }
    }
}

/// A modified source that was a module and is one.
pub open spec fn is_rewritten(ground: Ground, c: ChangeTexts) -> bool {
    &&& is_source_extension(extension_of(c.change.path@))
    &&& c.change.kind@ is Modified
    &&& c.before is Some
    &&& ground.graph.modules@.dom().contains(normal(ground.graph.disk, c.change.path@))
}

/// A symbol is new, is told by another text, or is gone; of a registry all of the text counts.
pub open spec fn differs(old: ParsedModule, new: ParsedModule, name: Text) -> bool {
    if old.registries@.dom().contains(name) && new.registries@.dom().contains(name) {
        old.registries@[name].full_fingerprint@ != new.registries@[name].full_fingerprint@
            || !new.symbols@.dom().contains(name)
    } else {
        old.symbols@.dom().contains(name) != new.symbols@.dom().contains(name)
            || old.symbols@[name].fingerprint@ != new.symbols@[name].fingerprint@
    }
}

/// The symbol at this place differs between the two versions of a changed module.
pub open spec fn is_difference(
    ground: Ground,
    c: ChangeTexts,
    old: ParsedModule,
    at: Path,
    name: Text,
) -> bool {
    let here = normal(ground.graph.disk, c.change.path@);
    let there = old_location(ground.root, c.change.path@, c.change.kind@);
    &&& parsed(there, c.before->0@, Ok(old))
    &&& at == here || at == there
    &&& differs(old, ground.graph.modules@[here], name)
}

proof fn seeds_are_differences(
    ground: Ground,
    changes: Seq<ChangeTexts>,
    olds: Seq<Option<ParsedModule>>,
    n: int,
    at: Path,
    name: Text,
)
    requires
        n <= changes.len() == olds.len(),
        were(ground.root, changes, olds),
        forall|k: int| 0 <= k < changes.len() ==> is_rewritten(ground, #[trigger] changes[k]),
    ensures
        ground.seeds(changes, olds, n).type_nodes.contains((at, name)) ==> exists|
            k: int,
            old: ParsedModule,
        | 0 <= k < n && #[trigger] is_difference(ground, changes[k], old, at, name),
        ground.seeds(changes, olds, n).nodes.contains((at, name)) && !name.contains('[') ==> exists|
            k: int,
            old: ParsedModule,
        |
            0 <= k < n && #[trigger] may_start(ground, changes[k], old, at, name),
    decreases n,
{
    if n > 0 {
        seeds_are_differences(ground, changes, olds, n - 1, at, name);
        let c = changes[n - 1];
        let here = normal(ground.graph.disk, c.path());
        let there = old_location(ground.root, c.path(), c.kind());
        let new = ground.graph.modules@[here];
        assert(is_rewritten(ground, c));
        assert(c.was_module());
        assert(match olds[n - 1] {
            Some(m) => c.was_module() && was(ground.root, c, Ok(m)),
            None => !c.was_module(),
        });
        let old = olds[n - 1]->0;
        assert(parsed(there, c.before->0@, Ok(old)));
        let before = ground.seeds(changes, olds, n - 1);
        let now = ground.seeds(changes, olds, n);
        assert(now.type_nodes =~= before.type_nodes.union(changed_types(there, here, old, new)));
        assert(now.nodes =~= before.nodes.union(changed_runtime(there, here, old, new)));
        if now.type_nodes.contains((at, name)) {
            if before.type_nodes.contains((at, name)) {
                let (k, m) = choose|k: int, m: ParsedModule|
                    0 <= k < n - 1 && #[trigger] is_difference(ground, changes[k], m, at, name);
                assert(is_difference(ground, changes[k], m, at, name));
            } else {
                types_change_with_their_text(there, here, old, new, at, name);
                assert(is_difference(ground, changes[n - 1], old, at, name));
            }
        }
        if now.nodes.contains((at, name)) && !name.contains('[') {
            if before.nodes.contains((at, name)) {
                let (k, m) = choose|k: int, m: ParsedModule|
                    0 <= k < n - 1 && #[trigger] may_start(ground, changes[k], m, at, name);
                assert(may_start(ground, changes[k], m, at, name));
            } else {
                if !(old.registries@.dom().contains(name) && new.registries@.dom().contains(name)) {
                    declarations_change_at_run_time(there, here, old, new, at, name);
                }
                assert(may_start(ground, changes[n - 1], old, at, name));
            }
        }
    }
}

/// The symbol was and is a registry of a changed module.
pub open spec fn is_kept_registry(
    ground: Ground,
    c: ChangeTexts,
    old: ParsedModule,
    name: Text,
) -> bool {
    let here = normal(ground.graph.disk, c.change.path@);
    let there = old_location(ground.root, c.change.path@, c.change.kind@);
    &&& parsed(there, c.before->0@, Ok(old))
    &&& old.registries@.dom().contains(name)
    &&& ground.graph.modules@[here].registries@.dom().contains(name)
}

/// At run time something may start from this symbol: it differs, or it is a registry, of which
/// the entries are told apart.
pub open spec fn may_start(
    ground: Ground,
    c: ChangeTexts,
    old: ParsedModule,
    at: Path,
    name: Text,
) -> bool {
    is_difference(ground, c, old, at, name) || is_kept_registry(ground, c, old, name)
}

/// Where modules were modified, nothing starts from what did not change in them: every seed is a
/// symbol of a changed module that is new, is told by another text, or is gone. At run time it may
/// be a registry, too, or one of its entries.
pub proof fn unchanged_declarations_start_nothing(
    ground: Ground,
    changes: Seq<ChangeTexts>,
    seeds: ChangeSeeds,
    at: Path,
    name: Text,
)
    requires
        found(ground, changes, Ok(seeds)),
        forall|k: int| 0 <= k < changes.len() ==> is_rewritten(ground, #[trigger] changes[k]),
    ensures
        seeds.type_nodes@.contains((at, name)) ==> exists|k: int, old: ParsedModule|
            0 <= k < changes.len() && #[trigger] is_difference(ground, changes[k], old, at, name),
        seeds.nodes@.contains((at, name)) && !name.contains('[') ==> exists|
            k: int,
            old: ParsedModule,
        |
            0 <= k < changes.len() && #[trigger] may_start(ground, changes[k], old, at, name),
{
    let olds = choose|olds: Seq<Option<ParsedModule>>| #[trigger]
        were(ground.root, changes, olds) && olds.len() == changes.len() && seeds@ == ground.seeds(
            changes,
            olds,
            changes.len() as int,
        );
    seeds_are_differences(ground, changes, olds, changes.len() as int, at, name);
}

} // verus!
