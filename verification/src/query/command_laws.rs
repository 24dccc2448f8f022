//! What holds of the commands that queries lead to.
use vstd::prelude::*;

use crate::git::KindModel;
use crate::graph::model::DependencyGraph;
use crate::graph::links::{edges_in, Edge};
use crate::parser::syntax::is_source_extension;
use crate::path::{extension_of, name_of};
use crate::query::command::{
    filter_line, filters, is_test_task, looks_everywhere, mode_of, runner_arguments, RootFiles,
    TaskRunner,
};
use crate::query::{is_merged, may_remove, Path, TaskKind, Text};
use crate::text::pieces;
use crate::words::texts_are_cut_at_marks;

verus! {

/// A wanted runner is used. Where none is wanted, Vite+ is where the workspace has it, else the
/// package manager whose lockfile there is: pnpm before bun before yarn, and npx where there is
/// none.
pub proof fn runners_follow_the_workspace(files: RootFiles, wanted: TaskRunner)
    ensures
        wanted != TaskRunner::Auto ==> files.chosen(wanted) == wanted,
        wanted == TaskRunner::Auto && files.vite_plus_binary ==> files.chosen(wanted)
            == TaskRunner::VitePlus,
        wanted == TaskRunner::Auto && !files.has_vite_plus() && files.pnpm_lock ==> files.chosen(wanted)
            == TaskRunner::Pnpm,
        wanted == TaskRunner::Auto && !files.has_vite_plus() && !files.pnpm_lock && files.bun_lock
            ==> files.chosen(wanted) == TaskRunner::Bun,
        wanted == TaskRunner::Auto && !files.has_vite_plus() && !files.pnpm_lock && !files.bun_lock
            && files.yarn_lock ==> files.chosen(wanted) == TaskRunner::Yarn,
        wanted == TaskRunner::Auto && !files.has_vite_plus() && !files.pnpm_lock && !files.bun_lock
            && !files.yarn_lock ==> files.chosen(wanted) == TaskRunner::Npx,
{
}

/// A manifest that names the package `vite-plus` anywhere makes Vite+ the runner.
pub proof fn manifests_may_name_vite_plus(files: RootFiles, front: Text, back: Text)
    requires
        files.manifest@ == front + "\"vite-plus\""@ + back,
    ensures
        files.chosen(TaskRunner::Auto) == TaskRunner::VitePlus,
{
    let part = "\"vite-plus\""@;
    let text = files.manifest@;
    let i = front.len() as int;
    assert(text.subrange(i, i + part.len()) =~= part);
    assert(crate::query::command::stands_at(text, part, i));
}

/// A runner is called through the package manager of the workspace.
pub proof fn runners_are_called_through_their_package_manager(files: RootFiles)
    ensures
        files.launcher(TaskRunner::Turbo) == ("turbo"@, seq!["run"@]),
        files.launcher(TaskRunner::Pnpm) == ("pnpm"@, seq!["exec"@, "turbo"@, "run"@]),
        files.launcher(TaskRunner::Bun) == ("bunx"@, seq!["turbo"@, "run"@]),
        files.launcher(TaskRunner::Yarn) == ("yarn"@, seq!["turbo"@, "run"@]),
        files.launcher(TaskRunner::Npx) == ("npx"@, seq!["--no-install"@, "turbo"@, "run"@]),
        files.pnpm_lock ==> files.launcher(TaskRunner::VitePlus) == (
            "pnpm"@,
            seq!["exec"@, "vp"@, "run"@],
        ),
        !files.pnpm_lock && files.bun_lock ==> files.launcher(TaskRunner::VitePlus) == (
            "bunx"@,
            seq!["vp"@, "run"@],
        ),
        !files.pnpm_lock && !files.bun_lock && files.yarn_lock ==> files.launcher(TaskRunner::VitePlus)
            == ("yarn"@, seq!["vp"@, "run"@]),
        !files.pnpm_lock && !files.bun_lock && !files.yarn_lock ==> files.launcher(
            TaskRunner::VitePlus,
        ) == ("npx"@, seq!["--no-install"@, "vp"@, "run"@]),
{
}

/// The arguments of a run, place by place: what the runner is called with, the arguments for the
/// runner, a filter for each affected package and the task, and behind `--` the arguments for the
/// task. Vite+ takes the task behind the filters, other runners in front of them.
pub proof fn runs_have_their_arguments(
    first: Seq<Text>,
    runner: TaskRunner,
    task: Text,
    names: Seq<Text>,
    runner_args: Seq<Text>,
    task_args: Seq<Text>,
    i: int,
)
    ensures
        ({
            let all = runner_arguments(first, runner, task, names, runner_args, task_args);
            let front = first.len() + runner_args.len();
            &&& all.len() == front + names.len() + 1 + if task_args.len() == 0 {
                0
            } else {
                1 + task_args.len()
            }
            &&& 0 <= i < first.len() ==> all[i] == first[i]
            &&& 0 <= i < runner_args.len() ==> all[first.len() + i] == runner_args[i]
            &&& runner == TaskRunner::VitePlus ==> all[front + names.len() as int] == task
            &&& runner != TaskRunner::VitePlus ==> all[front as int] == task
            &&& 0 <= i < names.len() && runner == TaskRunner::VitePlus ==> all[front + i]
                == "--filter="@ + names[i]
            &&& 0 <= i < names.len() && runner != TaskRunner::VitePlus ==> all[front + 1 + i]
                == "--filter="@ + names[i]
            &&& task_args.len() > 0 ==> all[front + names.len() + 1int] == "--"@
            &&& 0 <= i < task_args.len() ==> all[front + names.len() + 2 + i] == task_args[i]
        }),
{
    let all = runner_arguments(first, runner, task, names, runner_args, task_args);
    let called = if runner == TaskRunner::VitePlus {
        first + runner_args + filters(names) + seq![task]
    } else {
        first + runner_args + seq![task] + filters(names)
    };
    assert(called.len() == first.len() + runner_args.len() + names.len() + 1);
    assert forall|k: int| 0 <= k < called.len() implies all[k] == called[k] by {}
}

/// The filters of the affected packages stand in one line with spaces between them.
pub proof fn filter_lines_read_back(names: Seq<Text>, i: int)
    requires
        0 <= i < names.len(),
        forall|k: int| 0 <= k < names.len() ==> !(#[trigger] names[k]).contains(' '),
    ensures
        pieces(filter_line(names), ' ').len() == names.len(),
        pieces(filter_line(names), ' ')[i] == "--filter="@ + names[i],
{
    reveal_strlit("--filter=");
    reveal_strlit(" ");
    assert(" "@ =~= seq![' ']);
    let list = filters(names);
    assert forall|k: int| 0 <= k < list.len() implies !(#[trigger] list[k]).contains(' ') by {
        let name = names[k];
        assert(list[k] == "--filter="@ + name);
        assert forall|j: int| 0 <= j < list[k].len() implies list[k][j] != ' ' by {
            if j >= 9 {
                assert(list[k][j] == name[j - 9]);
                assert(name.contains(name[j - 9]));
            }
        }
    }
    crate::text::joined_texts_are_pieces(list, ' ');
}

/// Without another wish a task called `check:type` type-checks, and any other deploys.
pub proof fn tasks_have_their_mode(task: Text, mode: TaskKind)
    ensures
        mode_of(task, Some(mode)) == mode,
        mode_of("check:type"@, None) == TaskKind::Typecheck,
        task != "check:type"@ ==> mode_of(task, None) == TaskKind::Deploy,
{
}

/// A task and its variants, which stand behind a colon, look at every file where the task is
/// `check`, `typecheck`, `lint` or `format`, and run tests where it is `test`.
pub proof fn variants_are_like_their_task(head: Text, variant: Text)
    requires
        !head.contains(':'),
    ensures
        looks_everywhere(head) == (head == "check"@ || head == "typecheck"@ || head == "lint"@ || head
            == "format"@),
        looks_everywhere(head + seq![':'] + variant) == looks_everywhere(head),
        is_test_task(head) == (head == "test"@),
        is_test_task(head + seq![':'] + variant) == is_test_task(head),
{
    texts_are_cut_at_marks(head, ':', variant);
}

/// The base revision is needed where a change may take something away: a change of a source, of a
/// manifest, of the list of packages or of a TypeScript configuration, or a deletion or a
/// renaming.
pub proof fn removals_need_the_base(path: Path, kind: KindModel, old_path: Path)
    ensures
        may_remove(path, KindModel::Deleted),
        may_remove(path, KindModel::Renamed(old_path)),
        is_source_extension(extension_of(path)) ==> may_remove(path, kind),
        name_of(path) == Some("package.json"@) ==> may_remove(path, kind),
        name_of(path) == Some("pnpm-workspace.yaml"@) ==> may_remove(path, kind),
        (name_of(path) matches Some(name) && "tsconfig"@.is_prefix_of(name) && ".json"@.is_suffix_of(
            name,
        )) ==> may_remove(path, kind),
        !is_source_extension(extension_of(path)) && name_of(path) is None ==> !may_remove(
            path,
            KindModel::Added,
        ) && !may_remove(path, KindModel::Modified),
        !is_source_extension(extension_of(path)) && (name_of(path) matches Some(name) && name
            != "package.json"@ && name != "pnpm-workspace.yaml"@ && !"tsconfig"@.is_prefix_of(name))
            ==> !may_remove(path, KindModel::Added) && !may_remove(path, KindModel::Modified),
{
}

/// A merged graph has the edges of both revisions and no others, and is otherwise the current one.
pub proof fn merged_graphs_have_both_edges(
    graph: DependencyGraph,
    base: DependencyGraph,
    merged: DependencyGraph,
    e: Edge,
)
    requires
        is_merged(graph, Some(base), merged),
    ensures
        edges_in(merged.edges).contains(e) <==> edges_in(graph.edges).contains(e) || edges_in(
            base.edges,
        ).contains(e),
        edges_in(merged.type_edges).contains(e) <==> edges_in(graph.type_edges).contains(e)
            || edges_in(base.type_edges).contains(e),
        merged.modules == graph.modules,
        merged.targets == graph.targets,
        merged.diagnostics == graph.diagnostics,
{
}

} // verus!
