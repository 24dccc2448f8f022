//! Which packages a task concerns.
use vstd::prelude::*;

use crate::collections::{KeyMap, KeySet};
use crate::order::Key;
use crate::path::FilePath;
use crate::text::{same, starts_with_char, trim_leading, without_leading};
use crate::walk::{
    closed_holds_reached, closure, listed, reached_from, reaches, reaches_self, reaches_step,
};
use crate::words::{has_char, texts_of};
use crate::workspace::owner::Path;
use crate::workspace::{Package, Target};

verus! {

pub type Name = Seq<char>;

/// A package that `script` selects.
pub open spec fn has_script(package: Package, script: Name) -> bool {
    script == "all"@ || package.scripts@.dom().contains(script)
}

/// The names of the packages that `script` selects.
pub open spec fn scripted(packages: Seq<Package>, script: Name) -> Set<Name> {
    Set::new(
        |name: Name|
            exists|i: int|
                0 <= i < packages.len() && (#[trigger] packages[i]).name@ == name && has_script(
                    packages[i],
                    script,
                ),
    )
}

/// A target as a mathematical value.
pub open spec fn target_model(t: Target) -> (Name, Path) {
    (t.package@, t.entrypoint@)
}

pub open spec fn target_list(list: Seq<Target>) -> Seq<(Name, Path)> {
    list.map_values(|t: Target| target_model(t))
}

/// The targets of the first `n` packages: those that are selected and have an entrypoint.
pub open spec fn selected_targets(packages: Seq<Package>, selected: Set<Name>, n: int) -> Seq<
    (Name, Path),
>
    decreases n,
{
    if n <= 0 {
        Seq::empty()
    } else {
        let before = selected_targets(packages, selected, n - 1);
        let package = packages[n - 1];
        match package.entrypoint {
            Some(path) => if selected.contains(package.name@) {
                before.push((package.name@, path@))
            } else {
                before
            },
            None => before,
        }
    }
}

pub fn targets_for_packages(packages: &Vec<Package>, selected: &KeySet<String>) -> (r: Vec<Target>)
    ensures
        target_list(r@) == selected_targets(packages@, selected@, packages@.len() as int),
{
    let mut out: Vec<Target> = Vec::new();
    let mut i: usize = 0;
    assert(target_list(out@) =~= Seq::empty());
    while i < packages.len()
        invariant
            i <= packages.len(),
            target_list(out@) == selected_targets(packages@, selected@, i as int),
        decreases packages.len() - i,
    {
        let package = &packages[i];
        match &package.entrypoint {
            Some(path) => if selected.contains(&package.name) {
                let ghost before = target_list(out@);
                let target = Target { package: package.name.clone(), entrypoint: path.dup() };
                out.push(target);
                assert(target_list(out@) =~= before.push(target_model(target)));
            },
            None => {},
        }
        i += 1;
    }
    out
}

/// The packages with `script`, or all packages, that have an entrypoint.
pub fn targets_for(packages: &Vec<Package>, script: &str) -> (r: Vec<Target>)
    ensures
        target_list(r@) == selected_targets(
            packages@,
            scripted(packages@, script@),
            packages@.len() as int,
        ),
{
    let name = script.to_owned();
    let mut selected: KeySet<String> = KeySet::new();
    let mut i: usize = 0;
    while i < packages.len()
        invariant
            i <= packages.len(),
            name@ == script@,
            forall|n: Name| #[trigger]
                selected@.contains(n) == (exists|k: int|
                    0 <= k < i && (#[trigger] packages@[k]).name@ == n && has_script(
                        packages@[k],
                        script@,
                    )),
        decreases packages.len() - i,
    {
        let ghost before = selected@;
        let package = &packages[i];
        let fits = same(script, "all") || package.scripts.contains_key(&name);
        if fits {
            selected.insert(package.name.clone());
        }
        proof {
            assert forall|n: Name| #[trigger]
                selected@.contains(n) == (exists|k: int|
                    0 <= k < i + 1 && (#[trigger] packages@[k]).name@ == n && has_script(
                        packages@[k],
                        script@,
                    )) by {
                assert(before.contains(n) == (exists|k: int|
                    0 <= k < i && (#[trigger] packages@[k]).name@ == n && has_script(
                        packages@[k],
                        script@,
                    )));
                if fits && n == packages@[i as int].name@ {
                    assert(has_script(packages@[i as int], script@));
                }
            }
        }
        i += 1;
    }
    assert(selected@ =~= scripted(packages@, script@));
    targets_for_packages(packages, &selected)
}

/// The task that an entry of `dependsOn` leads to: marks in front are dropped, and variables and
/// tasks of a single package are not followed.
pub open spec fn followed(entry: Name) -> Option<Name> {
    let name = without_leading(entry, '^');
    if (name.len() > 0 && name[0] == '$') || name.contains('#') {
        None
    } else {
        Some(name)
    }
}

/// A task of the task runner's configuration.
pub struct TurboTask {
    pub depends_on: Vec<String>,
}

/// The task runner's configuration.
pub struct TurboConfig {
    pub tasks: KeyMap<String, TurboTask>,
}

/// What the tasks depend on, as it is written.
pub type Tasks = Map<Name, Seq<Name>>;

/// The tasks of a configuration; none where there is no configuration.
pub open spec fn configured_tasks(config: Option<TurboConfig>) -> Tasks {
    match config {
        Some(c) => task_models(c.tasks@),
        None => Map::empty(),
    }
}

pub open spec fn task_models(tasks: Map<Name, TurboTask>) -> Tasks {
    tasks.map_values(|t: TurboTask| texts_of(t.depends_on@))
}

/// Item `j` of what `from` depends on stands for `to`.
pub open spec fn says_follows(tasks: Tasks, from: Name, to: Name, j: int) -> bool {
    &&& tasks.dom().contains(from)
    &&& 0 <= j < tasks[from].len()
    &&& followed(tasks[from][j]) == Some(to)
}

/// Running `from` runs `to` first.
pub open spec fn task_follows(tasks: Tasks) -> spec_fn(Name, Name) -> bool {
    |from: Name, to: Name| exists|j: int| says_follows(tasks, from, to, j)
}

/// All tasks that running `task` runs.
pub open spec fn task_closure(tasks: Tasks, task: Name) -> Set<Name> {
    Set::new(|name: Name| reaches(task_follows(tasks), task, name))
}

fn follow(entry: &str) -> (r: Option<String>)
    ensures
        r.model() == followed(entry@),
{
    let name = trim_leading(entry, '^');
    if starts_with_char(name.as_str(), '$') || has_char(name.as_str(), '#') {
        None
    } else {
        Some(name)
    }
}

/// The relation between tasks as a graph.
fn graph_of(tasks: &KeyMap<String, TurboTask>) -> (graph: KeyMap<String, KeySet<String>>)
    ensures
        forall|a: Name, b: Name| #[trigger]
            listed::<String>(graph@)(a, b) == task_follows(task_models(tasks@))(a, b),
{
    let ghost all = task_models(tasks@);
    let ghost keys = tasks.keys();
    let n = tasks.len();
    let mut graph: KeyMap<String, KeySet<String>> = KeyMap::new();
    let mut i: usize = 0;
    while i < n
        invariant
            i <= n,
            n == keys.len(),
            keys == tasks.keys(),
            all == task_models(tasks@),
            forall|a: Name, b: Name| #[trigger]
                listed::<String>(graph@)(a, b) == (keys.take(i as int).contains(a) && task_follows(all)(
                    a,
                    b,
                )),
        decreases n - i,
    {
        let name = tasks.key_at(i);
        let list = &tasks.value_at(i).depends_on;
        let ghost start = graph@;
        let ghost before = keys.take(i as int);
        assert(all.dom().contains(name@) && all[name@] == texts_of(list@));
        let mut j: usize = 0;
        while j < list.len()
            invariant
                j <= list.len(),
                all.dom().contains(name@),
                all[name@] == texts_of(list@),
                forall|a: Name, b: Name| #[trigger]
                    listed::<String>(start)(a, b) == (before.contains(a) && task_follows(all)(a, b)),
                forall|a: Name, b: Name| #[trigger]
                    listed::<String>(graph@)(a, b) == (listed::<String>(start)(a, b) || (a == name@
                        && exists|l: int| l < j && #[trigger] says_follows(all, a, b, l))),
            decreases list.len() - j,
        {
            let ghost seen = graph@;
            assert(all[name@][j as int] == list@[j as int]@);
            let next = follow(list[j].as_str());
            let ghost added = next.model();
            match next {
                Some(to) => {
                    graph.link(name.clone(), to);
                },
                None => {},
            }
            proof {
                assert forall|a: Name, b: Name| #[trigger]
                    listed::<String>(graph@)(a, b) == (listed::<String>(start)(a, b) || (a == name@
                        && exists|l: int| l < j + 1 && #[trigger] says_follows(all, a, b, l))) by {
                    link_lists(seen, graph@, name@, added);
                    assert(listed::<String>(seen)(a, b) == (listed::<String>(start)(a, b) || (a
                        == name@ && exists|l: int| l < j && #[trigger] says_follows(all, a, b, l))));
                    if a == name@ && added == Some(b) {
                        assert(says_follows(all, a, b, j as int));
                    }
                }
            }
            j += 1;
        }
        proof {
            let after = keys.take(i + 1);
            assert(after =~= before.push(name@));
            assert forall|a: Name, b: Name| #[trigger]
                listed::<String>(graph@)(a, b) == (after.contains(a) && task_follows(all)(a, b)) by {
                assert(listed::<String>(graph@)(a, b) == (listed::<String>(start)(a, b) || (a == name@
                    && exists|l: int| l < list.len() && #[trigger] says_follows(all, a, b, l))));
                assert(after.contains(a) == (before.contains(a) || a == name@)) by {
                    if before.contains(a) {
                        let k = choose|k: int| 0 <= k < before.len() && before[k] == a;
                        assert(after[k] == a);
                    }
                    assert(after[before.len() as int] == name@);
                }
                if task_follows(all)(a, b) {
                    let l = choose|l: int| says_follows(all, a, b, l);
                    assert(a == name@ ==> l < list.len());
                }
            }
        }
        i += 1;
    }
    proof {
        assert(keys.take(n as int) =~= keys);
        tasks.dom_is_finite();
        assert forall|a: Name, b: Name| #[trigger]
            listed::<String>(graph@)(a, b) == task_follows(all)(a, b) by {
            assert(listed::<String>(graph@)(a, b) == (keys.take(n as int).contains(a)
                && task_follows(all)(a, b)));
            if task_follows(all)(a, b) {
                let l = choose|l: int| says_follows(all, a, b, l);
                assert(keys.to_set().contains(a));
            }
        }
    }
    graph
}

/// Adding a pair to a graph lists that pair and no other.
proof fn link_lists(
    before: Map<Name, KeySet<String>>,
    after: Map<Name, KeySet<String>>,
    from: Name,
    to: Option<Name>,
)
    requires
        match to {
            Some(t) => crate::collections::pairs::<String, String>(after)
                == crate::collections::pairs::<String, String>(before).insert((from, t)),
            None => after == before,
        },
    ensures
        forall|a: Name, b: Name| #[trigger]
            listed::<String>(after)(a, b) == (listed::<String>(before)(a, b) || (a == from && to == Some(
                b,
            ))),
{
    assert forall|a: Name, b: Name| #[trigger]
        listed::<String>(after)(a, b) == (listed::<String>(before)(a, b) || (a == from && to == Some(
            b,
        ))) by {
        assert(listed::<String>(after)(a, b) == crate::collections::pairs::<String, String>(
            after,
        ).contains((a, b)));
        assert(listed::<String>(before)(a, b) == crate::collections::pairs::<String, String>(
            before,
        ).contains((a, b)));
    }
}

/// All tasks that running `task` runs, by the task runner's configuration.
pub fn turbo_task_names(config: &Option<TurboConfig>, task: &str) -> (r: KeySet<String>)
    ensures
        r@ == task_closure(configured_tasks(*config), task@),
{
    let ghost tasks = configured_tasks(*config);
    let mut graph: KeyMap<String, KeySet<String>> = KeyMap::new();
    match config {
        Some(c) => {
            graph = graph_of(&c.tasks);
        },
        None => {},
    }
    assert forall|a: Name, b: Name| #[trigger]
        listed::<String>(graph@)(a, b) == task_follows(tasks)(a, b) by {}
    let mut start: KeySet<String> = KeySet::new();
    start.insert(task.to_owned());
    let out = closure(&graph, &start);
    proof {
        assert(listed::<String>(graph@) =~= task_follows(tasks));
        assert(start@ =~= Set::<Name>::empty().insert(task@));
        assert forall|n: Name| out@.contains(n) == task_closure(tasks, task@).contains(n) by {
            assert(out@.contains(n) == reached_from::<String>(graph@, start@).contains(n));
            if reaches(task_follows(tasks), task@, n) {
                assert(start@.contains(task@));
            }
        }
        assert(out@ =~= task_closure(tasks, task@));
    }
    out
}

/// A package below the root that one of the tasks concerns.
pub open spec fn is_concerned(root: Path, package: Package, task: Name, names: Set<Name>) -> bool {
    package.dir@ != root && (task == "all"@ || exists|name: Name| #[trigger]
        names.contains(name) && package.scripts@.dom().contains(name))
}

/// The names of the packages that a task concerns.
pub open spec fn concerned(root: Path, packages: Seq<Package>, task: Name, names: Set<Name>) -> Set<
    Name,
> {
    Set::new(
        |name: Name|
            exists|i: int|
                0 <= i < packages.len() && (#[trigger] packages[i]).name@ == name && is_concerned(
                    root,
                    packages[i],
                    task,
                    names,
                ),
    )
}

fn has_any(names: &KeySet<String>, scripts: &KeyMap<String, String>) -> (r: bool)
    ensures
        r == (exists|name: Name| #[trigger] names@.contains(name) && scripts@.dom().contains(name)),
{
    let n = names.len();
    let mut i: usize = 0;
    while i < n
        invariant
            i <= n,
            n == names.list().len(),
            forall|k: int| 0 <= k < i ==> !scripts@.dom().contains(#[trigger] names.list()[k]),
        decreases n - i,
    {
        let name = names.at(i);
        if scripts.contains_key(name) {
            assert(names@.contains(name@));
            return true;
        }
        i += 1;
    }
    proof {
        assert forall|name: Name| #[trigger] names@.contains(name) implies !scripts@.dom().contains(
            name,
        ) by {
            let k = choose|k: int| 0 <= k < names.list().len() && names.list()[k] == name;
            assert(names.list()[k] == name);
        }
    }
    false
}

/// The packages that `task` concerns, and all tasks that it runs.
pub fn task_packages_for(
    root: &FilePath,
    packages: &Vec<Package>,
    task: &str,
    config: &Option<TurboConfig>,
) -> (r: (KeySet<String>, KeySet<String>))
    ensures
        r.1@ == task_closure(configured_tasks(*config), task@),
        r.0@ == concerned(root@, packages@, task@, r.1@),
{
    let names = turbo_task_names(config, task);
    let mut selected: KeySet<String> = KeySet::new();
    let mut i: usize = 0;
    while i < packages.len()
        invariant
            i <= packages.len(),
            forall|n: Name| #[trigger]
                selected@.contains(n) == (exists|k: int|
                    0 <= k < i && (#[trigger] packages@[k]).name@ == n && is_concerned(
                        root@,
                        packages@[k],
                        task@,
                        names@,
                    )),
        decreases packages.len() - i,
    {
        let ghost before = selected@;
        let package = &packages[i];
        let fits = !package.dir.same_as(root) && (same(task, "all") || has_any(
            &names,
            &package.scripts,
        ));
        if fits {
            selected.insert(package.name.clone());
        }
        proof {
            assert forall|n: Name| #[trigger]
                selected@.contains(n) == (exists|k: int|
                    0 <= k < i + 1 && (#[trigger] packages@[k]).name@ == n && is_concerned(
                        root@,
                        packages@[k],
                        task@,
                        names@,
                    )) by {
                assert(before.contains(n) == (exists|k: int|
                    0 <= k < i && (#[trigger] packages@[k]).name@ == n && is_concerned(
                        root@,
                        packages@[k],
                        task@,
                        names@,
                    )));
                if fits && n == packages@[i as int].name@ {
                    assert(is_concerned(root@, packages@[i as int], task@, names@));
                }
            }
        }
        i += 1;
    }
    assert(selected@ =~= concerned(root@, packages@, task@, names@));
    (selected, names)
}

/// A run of a task runs the task itself and everything that one of its tasks depends on, and
/// nothing that no task asks for.
pub proof fn runs_follow_dependencies(tasks: Tasks, task: Name, others: Set<Name>)
    ensures
        task_closure(tasks, task).contains(task),
        forall|from: Name, to: Name|
            task_closure(tasks, task).contains(from) && #[trigger] task_follows(tasks)(from, to)
                ==> task_closure(tasks, task).contains(to),
        others.contains(task) && (forall|from: Name, to: Name|
            others.contains(from) && #[trigger] task_follows(tasks)(from, to) ==> others.contains(to))
            ==> task_closure(tasks, task).subset_of(others),
{
    let r = task_follows(tasks);
    reaches_self(r, task);
    assert forall|from: Name, to: Name|
        task_closure(tasks, task).contains(from) && #[trigger] r(from, to) implies task_closure(
        tasks,
        task,
    ).contains(to) by {
        reaches_step(r, task, from, to);
    }
    if others.contains(task) && (forall|from: Name, to: Name|
        others.contains(from) && #[trigger] r(from, to) ==> others.contains(to)) {
        assert forall|name: Name| task_closure(tasks, task).contains(name) implies others.contains(name) by {
            closed_holds_reached(r, others, task, name);
        }
    }
}

} // verus!
