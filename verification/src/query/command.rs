//! The command that runs a task for the affected packages only.
use vstd::prelude::*;

use crate::analysis::seeds::copy_texts;
use crate::order::{chars_of, models};
use crate::query::TaskKind;
use crate::text::{join, join2, join3, joined, same};
use crate::words::{before_first, take_before, texts_of};

verus! {

pub type Text = Seq<char>;

/// How a task is run.
#[derive(Clone, Copy, Debug, PartialEq, Eq, Structural)]
pub enum TaskRunner {
    Auto,
    Pnpm,
    Npx,
    Bun,
    Yarn,
    Turbo,
    VitePlus,
}

/// What the root of a workspace holds.
pub struct RootFiles {
    pub pnpm_lock: bool,
    pub bun_lock: bool,
    pub yarn_lock: bool,
    /// `node_modules/.bin/vp` is there.
    pub vite_plus_binary: bool,
    /// The text of `package.json`.
    pub manifest: String,
}

/// `part` stands in `text` from place `i`.
pub open spec fn stands_at(text: Text, part: Text, i: int) -> bool {
    0 <= i && i + part.len() <= text.len() && text.subrange(i, i + part.len()) == part
}

pub open spec fn holds_text(text: Text, part: Text) -> bool {
    exists|i: int| stands_at(text, part, i)
}

fn stands(text: &Vec<char>, part: &Vec<char>, at: usize) -> (r: bool)
    requires
        at + part.len() <= text.len(),
    ensures
        r == stands_at(text@, part@, at as int),
{
    let ghost there = text@.subrange(at as int, at + part@.len());
    let mut k: usize = 0;
    while k < part.len()
        invariant
            k <= part.len(),
            at + part.len() <= text.len(),
            there == text@.subrange(at as int, at + part@.len()),
            forall|j: int| 0 <= j < k ==> there[j] == part@[j],
        decreases part.len() - k,
    {
        if text[at + k] != part[k] {
            assert(there[k as int] != part@[k as int]);
            return false;
        }
        k += 1;
    }
    assert(there =~= part@);
    true
}

/// Whether a text holds another.
pub fn contains_text(text: &str, part: &str) -> (r: bool)
    ensures
        r == holds_text(text@, part@),
{
    let t = chars_of(text);
    let p = chars_of(part);
    if p.len() > t.len() {
        return false;
    }
    let last = t.len() - p.len();
    let mut i: usize = 0;
    while i <= last
        invariant
            i <= last + 1,
            last + p.len() == t.len(),
            t@ == text@,
            p@ == part@,
            forall|k: int| 0 <= k < i ==> !stands_at(text@, part@, k),
        decreases last + 1 - i,
    {
        if stands(&t, &p, i) {
            return true;
        }
        if i == last {
            assert forall|k: int| !stands_at(text@, part@, k) by {
                if stands_at(text@, part@, k) {
                    assert(k <= last);
                }
            }
            return false;
        }
        i += 1;
    }
    false
}

impl RootFiles {
    /// The workspace uses Vite+.
    pub open spec fn has_vite_plus(self) -> bool {
        self.vite_plus_binary || holds_text(self.manifest@, "\"vite-plus\""@)
    }

    /// The runner that is used.
    pub open spec fn chosen(self, wanted: TaskRunner) -> TaskRunner {
        if wanted != TaskRunner::Auto {
            wanted
        } else if self.has_vite_plus() {
            TaskRunner::VitePlus
        } else if self.pnpm_lock {
            TaskRunner::Pnpm
        } else if self.bun_lock {
            TaskRunner::Bun
        } else if self.yarn_lock {
            TaskRunner::Yarn
        } else {
            TaskRunner::Npx
        }
    }

    pub fn choose_runner(&self, wanted: TaskRunner) -> (r: TaskRunner)
        ensures
            r == self.chosen(wanted),
            r != TaskRunner::Auto,
    {
        if wanted != TaskRunner::Auto {
            wanted
        } else if self.vite_plus_binary || contains_text(self.manifest.as_str(), "\"vite-plus\"") {
            TaskRunner::VitePlus
        } else if self.pnpm_lock {
            TaskRunner::Pnpm
        } else if self.bun_lock {
            TaskRunner::Bun
        } else if self.yarn_lock {
            TaskRunner::Yarn
        } else {
            TaskRunner::Npx
        }
    }

    /// The program and the first arguments of a runner.
    pub open spec fn launcher(self, runner: TaskRunner) -> (Text, Seq<Text>) {
        match runner {
            TaskRunner::VitePlus => if self.pnpm_lock {
                ("pnpm"@, seq!["exec"@, "vp"@, "run"@])
            } else if self.bun_lock {
                ("bunx"@, seq!["vp"@, "run"@])
            } else if self.yarn_lock {
                ("yarn"@, seq!["vp"@, "run"@])
            } else {
                ("npx"@, seq!["--no-install"@, "vp"@, "run"@])
            },
            TaskRunner::Pnpm => ("pnpm"@, seq!["exec"@, "turbo"@, "run"@]),
            TaskRunner::Bun => ("bunx"@, seq!["turbo"@, "run"@]),
            TaskRunner::Yarn => ("yarn"@, seq!["turbo"@, "run"@]),
            TaskRunner::Turbo => ("turbo"@, seq!["run"@]),
            TaskRunner::Npx | TaskRunner::Auto => (
                "npx"@,
                seq!["--no-install"@, "turbo"@, "run"@],
            ),
        }
    }

    fn find_launcher(&self, runner: TaskRunner) -> (r: (&'static str, Vec<String>))
        ensures
            (r.0@, texts_of(r.1@)) == self.launcher(runner),
    {
        match runner {
            TaskRunner::VitePlus => if self.pnpm_lock {
                ("pnpm", three("exec", "vp", "run"))
            } else if self.bun_lock {
                ("bunx", two("vp", "run"))
            } else if self.yarn_lock {
                ("yarn", two("vp", "run"))
            } else {
                ("npx", three("--no-install", "vp", "run"))
            },
            TaskRunner::Pnpm => ("pnpm", three("exec", "turbo", "run")),
            TaskRunner::Bun => ("bunx", two("turbo", "run")),
            TaskRunner::Yarn => ("yarn", two("turbo", "run")),
            TaskRunner::Turbo => {
                let mut out: Vec<String> = Vec::new();
                out.push("run".to_owned());
                assert(texts_of(out@) =~= seq!["run"@]);
                ("turbo", out)
            },
            TaskRunner::Npx | TaskRunner::Auto => ("npx", three("--no-install", "turbo", "run")),
        }
    }
}

fn two(a: &str, b: &str) -> (r: Vec<String>)
    ensures
        texts_of(r@) == seq![a@, b@],
{
    let mut out: Vec<String> = Vec::new();
    out.push(a.to_owned());
    out.push(b.to_owned());
    assert(texts_of(out@) =~= seq![a@, b@]);
    out
}

fn three(a: &str, b: &str, c: &str) -> (r: Vec<String>)
    ensures
        texts_of(r@) == seq![a@, b@, c@],
{
    let mut out = two(a, b);
    let ghost before = texts_of(out@);
    out.push(c.to_owned());
    assert(texts_of(out@) =~= before.push(c@));
    assert(before.push(c@) =~= seq![a@, b@, c@]);
    out
}

/// The arguments that select packages.
pub open spec fn filters(names: Seq<Text>) -> Seq<Text> {
    names.map_values(|n: Text| "--filter="@ + n)
}

fn list_filters(names: &Vec<String>) -> (r: Vec<String>)
    ensures
        texts_of(r@) == filters(texts_of(names@)),
{
    let ghost all = filters(texts_of(names@));
    let mut out: Vec<String> = Vec::new();
    let mut i: usize = 0;
    while i < names.len()
        invariant
            i <= names.len(),
            all == filters(texts_of(names@)),
            texts_of(out@) =~= all.take(i as int),
        decreases names.len() - i,
    {
        let ghost before = texts_of(out@);
        let item = join2("--filter=", names[i].as_str());
        out.push(item);
        assert(texts_of(out@) =~= before.push(item@));
        i += 1;
    }
    assert(all.take(i as int) =~= all);
    out
}

/// The filter that selects no package.
pub const NO_PACKAGES: &'static str = "--filter=__monoripple_no_affected_packages__";

/// The affected packages as filters; where there are none, one that no package meets.
pub open spec fn filter_line(names: Seq<Text>) -> Text {
    if names.len() == 0 {
        NO_PACKAGES@
    } else {
        joined(filters(names), " "@)
    }
}

/// Prints the affected packages as filters of a task runner.
pub fn print_filters(names: &Vec<String>) -> (r: String)
    ensures
        r@ == filter_line(texts_of(names@)),
{
    assert(texts_of(names@).len() == names@.len());
    if names.len() == 0 {
        NO_PACKAGES.to_owned()
    } else {
        let list = list_filters(names);
        proof {
            assert(models(list@) =~= texts_of(list@));
        }
        join(&list, " ")
    }
}

/// The arguments of the task runner: Vite+ takes the filters in front of the task, Turbo behind it.
pub open spec fn runner_arguments(
    first: Seq<Text>,
    runner: TaskRunner,
    task: Text,
    names: Seq<Text>,
    runner_args: Seq<Text>,
    task_args: Seq<Text>,
) -> Seq<Text> {
    let called = if runner == TaskRunner::VitePlus {
        first + runner_args + filters(names) + seq![task]
    } else {
        first + runner_args + seq![task] + filters(names)
    };
    if task_args.len() == 0 {
        called
    } else {
        called + seq!["--"@] + task_args
    }
}

/// A character that a shell takes as it is.
pub open spec fn is_plain(c: char) -> bool {
    ('a' <= c && c <= 'z') || ('A' <= c && c <= 'Z') || ('0' <= c && c <= '9') || c == '-' || c
        == '_' || c == '=' || c == ':' || c == '@' || c == '/' || c == '.' || c == ','
}

fn plain(c: char) -> (r: bool)
    ensures
        r == is_plain(c),
{
    ('a' <= c && c <= 'z') || ('A' <= c && c <= 'Z') || ('0' <= c && c <= '9') || c == '-' || c
        == '_' || c == '=' || c == ':' || c == '@' || c == '/' || c == '.' || c == ','
}

pub open spec fn is_plain_text(text: Text) -> bool {
    forall|i: int| 0 <= i < text.len() ==> is_plain(#[trigger] text[i])
}

/// A character between single quotes: a quote ends them, stands behind a backslash and starts
/// them again.
pub open spec fn quoted_char(c: char) -> Text {
    if c == '\'' {
        seq!['\'', '\\', '\'', '\'']
    } else {
        seq![c]
    }
}

pub open spec fn quoted_chars(text: Text, n: int) -> Text
    decreases n,
{
    if n <= 0 {
        Seq::empty()
    } else {
        quoted_chars(text, n - 1) + quoted_char(text[n - 1])
    }
}

/// An argument as it is written in a shell.
pub open spec fn shell_text(argument: Text) -> Text {
    if is_plain_text(argument) {
        argument
    } else {
        seq!['\''] + quoted_chars(argument, argument.len() as int) + seq!['\'']
    }
}

/// Writes an argument so that a shell reads it as it is.
pub fn shell_argument(argument: &str) -> (r: String)
    ensures
        r@ == shell_text(argument@),
{
    let chars = chars_of(argument);
    let mut i: usize = 0;
    while i < chars.len() && plain(chars[i])
        invariant
            i <= chars.len(),
            chars@ == argument@,
            forall|k: int| 0 <= k < i ==> is_plain(#[trigger] argument@[k]),
        decreases chars.len() - i,
    {
        i += 1;
    }
    if i == chars.len() {
        return argument.to_owned();
    }
    assert(!is_plain(argument@[i as int]));
    let mut out = String::new();
    out.push('\'');
    let mut k: usize = 0;
    assert(out@ =~= seq!['\''] + quoted_chars(argument@, 0));
    while k < chars.len()
        invariant
            k <= chars.len(),
            chars@ == argument@,
            out@ == seq!['\''] + quoted_chars(argument@, k as int),
        decreases chars.len() - k,
    {
        let ghost before = out@;
        let c = chars[k];
        if c == '\'' {
            out.push('\'');
            out.push('\\');
            out.push('\'');
            out.push('\'');
        } else {
            out.push(c);
        }
        proof {
            assert(out@ =~= before + quoted_char(c));
            assert(out@ =~= seq!['\''] + quoted_chars(argument@, k + 1));
        }
        k += 1;
    }
    let ghost before = out@;
    out.push('\'');
    assert(out@ =~= before + seq!['\'']);
    out
}

/// What a shell reads: between single quotes every character as it is, elsewhere a backslash
/// takes the next character as it is.
pub open spec fn shell_reads(text: Text, inside: bool) -> Text
    decreases text.len(),
{
    if text.len() == 0 {
        Seq::empty()
    } else if inside {
        if text[0] == '\'' {
            shell_reads(text.skip(1), false)
        } else {
            seq![text[0]] + shell_reads(text.skip(1), true)
        }
    } else if text[0] == '\'' {
        shell_reads(text.skip(1), true)
    } else if text[0] == '\\' && text.len() > 1 {
        seq![text[1]] + shell_reads(text.skip(2), false)
    } else {
        seq![text[0]] + shell_reads(text.skip(1), false)
    }
}

proof fn shell_reads_char(c: char, rest: Text)
    ensures
        shell_reads(quoted_char(c) + rest, true) == seq![c] + shell_reads(rest, true),
{
    let all = quoted_char(c) + rest;
    if c == '\'' {
        assert(all.skip(1)[0] == '\\');
        assert(all.skip(1).skip(2) =~= all.skip(3));
        assert(all.skip(3)[0] == '\'');
        assert(all.skip(3).skip(1) =~= rest);
        assert(shell_reads(all, true) == shell_reads(all.skip(1), false));
        assert(shell_reads(all.skip(1), false) == seq![c] + shell_reads(all.skip(3), false));
        assert(shell_reads(all.skip(3), false) == shell_reads(rest, true));
    } else {
        assert(all.skip(1) =~= rest);
    }
}

proof fn shell_reads_quoted(text: Text, n: int, rest: Text)
    requires
        0 <= n <= text.len(),
    ensures
        shell_reads(quoted_chars(text, n) + rest, true) == text.take(n) + shell_reads(rest, true),
    decreases n,
{
    if n > 0 {
        let c = text[n - 1];
        shell_reads_quoted(text, n - 1, quoted_char(c) + rest);
        shell_reads_char(c, rest);
        assert(quoted_chars(text, n) + rest =~= quoted_chars(text, n - 1) + (quoted_char(c)
            + rest));
        assert(text.take(n) + shell_reads(rest, true) =~= text.take(n - 1) + (seq![c]
            + shell_reads(rest, true)));
    } else {
        assert(quoted_chars(text, 0) + rest =~= rest);
        assert(text.take(0) + shell_reads(rest, true) =~= shell_reads(rest, true));
    }
}

proof fn shell_reads_plain(text: Text)
    requires
        is_plain_text(text),
    ensures
        shell_reads(text, false) == text,
    decreases text.len(),
{
    if text.len() > 0 {
        assert(is_plain(text[0]));
        let rest = text.skip(1);
        assert forall|i: int| 0 <= i < rest.len() implies is_plain(#[trigger] rest[i]) by {
            assert(is_plain(text[i + 1]));
        }
        shell_reads_plain(rest);
        assert(text =~= seq![text[0]] + rest);
    } else {
        assert(text =~= Seq::empty());
    }
}

/// A shell reads back every argument as it was.
pub proof fn shell_reads_arguments_back(argument: Text)
    ensures
        shell_reads(shell_text(argument), false) == argument,
{
    if is_plain_text(argument) {
        shell_reads_plain(argument);
    } else {
        let n = argument.len() as int;
        let written = shell_text(argument);
        assert(written.skip(1) =~= quoted_chars(argument, n) + seq!['\'']);
        shell_reads_quoted(argument, n, seq!['\'']);
        assert(seq!['\''].skip(1) =~= Seq::<char>::empty());
        assert(shell_reads(seq!['\''], true) == shell_reads(Seq::empty(), false));
        assert(argument.take(n) =~= argument);
        assert(argument + Seq::<char>::empty() =~= argument);
    }
}

/// What is to be done for a task.
pub enum TaskPlan {
    /// No package is affected.
    Nothing { message: String },
    Run { program: &'static str, arguments: Vec<String>, message: String },
}

pub open spec fn shell_texts(arguments: Seq<Text>) -> Seq<Text> {
    arguments.map_values(|a: Text| shell_text(a))
}

/// The line that announces a command.
pub open spec fn running_line(program: Text, arguments: Seq<Text>) -> Text {
    "running: "@ + program + " "@ + joined(shell_texts(arguments), " "@)
}

pub open spec fn idle_line(task: Text) -> Text {
    "no affected packages have a `"@ + task + "` task; the task runner was not invoked"@
}

fn write_arguments(arguments: &Vec<String>) -> (r: Vec<String>)
    ensures
        texts_of(r@) == shell_texts(texts_of(arguments@)),
{
    let ghost all = shell_texts(texts_of(arguments@));
    let mut out: Vec<String> = Vec::new();
    let mut i: usize = 0;
    while i < arguments.len()
        invariant
            i <= arguments.len(),
            all == shell_texts(texts_of(arguments@)),
            texts_of(out@) =~= all.take(i as int),
        decreases arguments.len() - i,
    {
        let ghost before = texts_of(out@);
        let item = shell_argument(arguments[i].as_str());
        out.push(item);
        assert(texts_of(out@) =~= before.push(item@));
        i += 1;
    }
    assert(all.take(i as int) =~= all);
    out
}

fn add_texts(out: &mut Vec<String>, more: &Vec<String>)
    ensures
        texts_of(final(out)@) == texts_of(old(out)@) + texts_of(more@),
{
    let ghost start = texts_of(out@);
    let mut copy = copy_texts(more);
    let ghost c = texts_of(copy@);
    out.append(&mut copy);
    assert(texts_of(out@) =~= start + c);
}

/// Plans a task for the affected packages: nothing where there are none, so that a runner without
/// filters never runs the task everywhere.
pub fn plan_task(
    files: &RootFiles,
    wanted: TaskRunner,
    task: &str,
    affected: &Vec<String>,
    runner_args: &Vec<String>,
    task_args: &Vec<String>,
) -> (r: TaskPlan)
    ensures
        match r {
            TaskPlan::Nothing { message } => affected@.len() == 0 && message@ == idle_line(task@),
            TaskPlan::Run { program, arguments, message } => {
                let runner = files.chosen(wanted);
                let (name, first) = files.launcher(runner);
                &&& affected@.len() > 0
                &&& program@ == name
                &&& texts_of(arguments@) == runner_arguments(
                    first,
                    runner,
                    task@,
                    texts_of(affected@),
                    texts_of(runner_args@),
                    texts_of(task_args@),
                )
                &&& message@ == running_line(name, texts_of(arguments@))
            },
        },
{
    if affected.len() == 0 {
        return TaskPlan::Nothing {
            message: join3(
                "no affected packages have a `",
                task,
                "` task; the task runner was not invoked",
            ),
        };
    }
    let runner = files.choose_runner(wanted);
    let (program, mut arguments) = files.find_launcher(runner);
    let ghost first = texts_of(arguments@);
    add_texts(&mut arguments, runner_args);
    let selected = list_filters(affected);
    let ghost front = texts_of(arguments@);
    match runner {
        TaskRunner::VitePlus => {
            add_texts(&mut arguments, &selected);
            let ghost before = texts_of(arguments@);
            arguments.push(task.to_owned());
            assert(texts_of(arguments@) =~= before + seq![task@]);
        },
        _ => {
            arguments.push(task.to_owned());
            assert(texts_of(arguments@) =~= front + seq![task@]);
            add_texts(&mut arguments, &selected);
        },
    }
    assert(texts_of(task_args@).len() == task_args@.len());
    if task_args.len() > 0 {
        let ghost before = texts_of(arguments@);
        arguments.push("--".to_owned());
        assert(texts_of(arguments@) =~= before + seq!["--"@]);
        add_texts(&mut arguments, task_args);
    }
    let written = write_arguments(&arguments);
    proof {
        assert(models(written@) =~= texts_of(written@));
    }
    let mut message = join3("running: ", program, " ");
    message.append(join(&written, " ").as_str());
    TaskPlan::Run { program, arguments, message }
}

/// How a task passes changes on where nothing else is said: `check:type` type-checks.
pub open spec fn mode_of(task: Text, wanted: Option<TaskKind>) -> TaskKind {
    match wanted {
        Some(mode) => mode,
        None => if task == "check:type"@ {
            TaskKind::Typecheck
        } else {
            TaskKind::Deploy
        },
    }
}

pub fn choose_mode(task: &str, wanted: Option<TaskKind>) -> (r: TaskKind)
    ensures
        r == mode_of(task@, wanted),
{
    match wanted {
        Some(mode) => mode,
        None => if same(task, "check:type") {
            TaskKind::Typecheck
        } else {
            TaskKind::Deploy
        },
    }
}

/// A task that looks at every source file of a package: type checks, linters, formatters and the
/// checks that run them all. What stands behind a colon is a variant of the task.
pub open spec fn looks_everywhere(task: Text) -> bool {
    let head = before_first(task, ':');
    head == "check"@ || head == "typecheck"@ || head == "lint"@ || head == "format"@
}

pub fn uses_every_file(task: &str) -> (r: bool)
    ensures
        r == looks_everywhere(task@),
{
    let head = take_before(task, ':');
    same(head.as_str(), "check") || same(head.as_str(), "typecheck") || same(head.as_str(), "lint")
        || same(head.as_str(), "format")
}

/// A task that runs tests, in whichever variant.
pub open spec fn is_test_task(task: Text) -> bool {
    before_first(task, ':') == "test"@
}

pub fn runs_tests(task: &str) -> (r: bool)
    ensures
        r == is_test_task(task@),
{
    same(take_before(task, ':').as_str(), "test")
}

} // verus!
