//! Which files differ from a revision.
use vstd::prelude::*;

use crate::collections::KeySet;
use crate::order::{models, Key};
use crate::path::{components, joined_path, shown, FilePath};
use crate::sorting::{items_of, keys_of, sort_by_key, sorted_by, sorting_maps};
use crate::text::{join3, pieces, split_on, starts_with, starts_with_char, trim, trimmed};
use crate::workspace::owner::{relative, relative_to, Path};

verus! {

pub type Text = Seq<char>;

/// How a file differs from the revision.
pub enum ChangeKind {
    Added,
    Modified,
    Deleted,
    Renamed { old_path: FilePath },
}

/// A file that differs from the revision.
pub struct ChangedFile {
    pub path: FilePath,
    pub kind: ChangeKind,
}

pub ghost enum KindModel {
    Added,
    Modified,
    Deleted,
    Renamed(Path),
}

impl View for ChangeKind {
    type V = KindModel;

    open spec fn view(&self) -> KindModel {
        match self {
            ChangeKind::Added => KindModel::Added,
            ChangeKind::Modified => KindModel::Modified,
            ChangeKind::Deleted => KindModel::Deleted,
            ChangeKind::Renamed { old_path } => KindModel::Renamed(old_path@),
        }
    }
}

impl View for ChangedFile {
    type V = (Path, KindModel);

    open spec fn view(&self) -> (Path, KindModel) {
        (self.path@, self.kind@)
    }
}

pub open spec fn change_models(list: Seq<ChangedFile>) -> Seq<(Path, KindModel)> {
    list.map_values(|c: ChangedFile| c@)
}

/// A line without the carriage return in front of its line feed.
pub open spec fn without_return(line: Text) -> Text {
    if line.len() > 0 && line.last() == '\r' {
        line.drop_last()
    } else {
        line
    }
}

/// The first `n` lines of a text that is cut at its line feeds; what stands behind the last line
/// feed is a line where it is not empty.
pub open spec fn first_lines(cut: Seq<Text>, n: int) -> Seq<Text>
    decreases n,
{
    if n <= 0 {
        Seq::empty()
    } else if n < cut.len() {
        first_lines(cut, n - 1).push(without_return(cut[n - 1]))
    } else if cut[n - 1].len() > 0 {
        first_lines(cut, n - 1).push(cut[n - 1])
    } else {
        first_lines(cut, n - 1)
    }
}

/// The lines of a text.
pub open spec fn lines(text: Text) -> Seq<Text> {
    let cut = pieces(text, '\n');
    first_lines(cut, cut.len() as int)
}

fn drop_return(line: &str) -> (r: String)
    ensures
        r@ == without_return(line@),
{
    let chars = crate::order::chars_of(line);
    let n = chars.len();
    if n > 0 && chars[n - 1] == '\r' {
        let r = crate::text::text_between(&chars, 0, n - 1);
        assert(r@ =~= without_return(line@));
        r
    } else {
        line.to_owned()
    }
}

/// Cuts a text into its lines.
pub fn split_lines(text: &str) -> (r: Vec<String>)
    ensures
        models(r@) == lines(text@),
{
    let cut = split_on(text, '\n');
    let ghost all = models(cut@);
    let mut out: Vec<String> = Vec::new();
    let mut i: usize = 0;
    assert(models(out@) =~= Seq::empty());
    while i < cut.len()
        invariant
            i <= cut.len(),
            all == models(cut@),
            models(out@) == first_lines(all, i as int),
        decreases cut.len() - i,
    {
        let ghost before = models(out@);
        assert(all[i as int] == cut@[i as int]@);
        if cut.len() - i > 1 {
            let line = drop_return(cut[i].as_str());
            let ghost l = line@;
            out.push(line);
            assert(models(out@) =~= before.push(l));
        } else if !cut[i].as_str().is_empty() {
            out.push(cut[i].clone());
            assert(models(out@) =~= before.push(all[i as int]));
        }
        i += 1;
    }
    out
}

/// What a line of `git diff --name-status` says: the letter of the status, then the path, or the
/// old and the new path of a renamed file.
pub open spec fn line_change(root: Path, line: Text) -> Option<(Path, KindModel)> {
    let fields = pieces(line, '\t');
    let status = fields[0];
    if status.len() == 0 || fields.len() < 2 {
        None
    } else if status[0] == 'A' {
        Some((joined_path(root, components(fields[1])), KindModel::Added))
    } else if status[0] == 'M' || status[0] == 'T' {
        Some((joined_path(root, components(fields[1])), KindModel::Modified))
    } else if status[0] == 'D' {
        Some((joined_path(root, components(fields[1])), KindModel::Deleted))
    } else if status[0] == 'R' && fields.len() >= 3 {
        Some(
            (
                joined_path(root, components(fields[2])),
                KindModel::Renamed(components(fields[1])),
            ),
        )
    } else {
        None
    }
}

/// What the first `n` lines say.
pub open spec fn listed_changes(root: Path, list: Seq<Text>, n: int) -> Seq<(Path, KindModel)>
    decreases n,
{
    if n <= 0 {
        Seq::empty()
    } else {
        match line_change(root, list[n - 1]) {
            Some(change) => listed_changes(root, list, n - 1).push(change),
            None => listed_changes(root, list, n - 1),
        }
    }
}

pub open spec fn names_path(list: Seq<(Path, KindModel)>, path: Path) -> bool {
    exists|i: int| 0 <= i < list.len() && (#[trigger] list[i]).0 == path
}

/// The changes together with the first `n` files that are not under version control: those that
/// are not listed yet count as added.
pub open spec fn with_unknown(
    changes: Seq<(Path, KindModel)>,
    root: Path,
    list: Seq<Text>,
    n: int,
) -> Seq<(Path, KindModel)>
    decreases n,
{
    if n <= 0 {
        changes
    } else {
        let before = with_unknown(changes, root, list, n - 1);
        let path = joined_path(root, components(list[n - 1]));
        if list[n - 1].len() == 0 || names_path(before, path) {
            before
        } else {
            before.push((path, KindModel::Added))
        }
    }
}

/// All changes, in the order in which they are reported.
pub open spec fn reported(root: Path, diff: Text, unknown: Text) -> Seq<(Path, KindModel)> {
    let changed = lines(diff);
    let others = lines(unknown);
    with_unknown(
        listed_changes(root, changed, changed.len() as int),
        root,
        others,
        others.len() as int,
    )
}

pub open spec fn change_paths(list: Seq<(Path, KindModel)>) -> Seq<Path> {
    list.map_values(|c: (Path, KindModel)| c.0)
}

fn read_change(root: &FilePath, line: &str) -> (r: Option<ChangedFile>)
    ensures
        match r {
            Some(change) => line_change(root@, line@) == Some(change@),
            None => line_change(root@, line@) is None,
        },
{
    let fields = split_on(line, '\t');
    let ghost all = models(fields@);
    assert(all[0] == fields@[0]@);
    let status = fields[0].as_str();
    if status.is_empty() || fields.len() < 2 {
        return None;
    }
    assert(all[1] == fields@[1]@);
    let path = root.join_text(fields[1].as_str());
    if starts_with_char(status, 'A') {
        Some(ChangedFile { path, kind: ChangeKind::Added })
    } else if starts_with_char(status, 'M') || starts_with_char(status, 'T') {
        Some(ChangedFile { path, kind: ChangeKind::Modified })
    } else if starts_with_char(status, 'D') {
        Some(ChangedFile { path, kind: ChangeKind::Deleted })
    } else if starts_with_char(status, 'R') && fields.len() >= 3 {
        assert(all[2] == fields@[2]@);
        Some(
            ChangedFile {
                path: root.join_text(fields[2].as_str()),
                kind: ChangeKind::Renamed { old_path: FilePath::parse(fields[1].as_str()) },
            },
        )
    } else {
        None
    }
}

/// The files that differ from a revision, in the order of their paths: `diff` is what
/// `git diff --name-status --find-renames` prints, `untracked` what
/// `git ls-files --others --exclude-standard` prints.
pub fn changed_files(root: &FilePath, diff: &str, untracked: &str) -> (r: Vec<ChangedFile>)
    ensures
        change_models(r@) == sorted_by::<FilePath, (Path, KindModel)>(
            change_paths(reported(root@, diff@, untracked@)),
            reported(root@, diff@, untracked@),
        ),
{
    let changed = split_lines(diff);
    let others = split_lines(untracked);
    let ghost listed = models(changed@);
    let ghost rest = models(others@);
    let mut known: KeySet<FilePath> = KeySet::new();
    let mut found: Vec<(FilePath, ChangedFile)> = Vec::new();
    let ghost mut all: Seq<(Path, KindModel)> = Seq::empty();
    let mut i: usize = 0;
    while i < changed.len()
        invariant
            i <= changed.len(),
            listed == models(changed@),
            all == listed_changes(root@, listed, i as int),
            found.len() == all.len(),
            forall|k: int|
                0 <= k < found.len() ==> (#[trigger] found@[k]).0@ == all[k].0 && found@[k].1@ == all[k],
            forall|p: Path| #[trigger] known@.contains(p) == names_path(all, p),
        decreases changed.len() - i,
    {
        assert(listed[i as int] == changed@[i as int]@);
        match read_change(root, changed[i].as_str()) {
            Some(change) => {
                let ghost before = all;
                let ghost c = change@;
                known.insert(change.path.dup());
                found.push((change.path.dup(), change));
                proof {
                    all = all.push(c);
                    assert forall|p: Path| #[trigger] known@.contains(p) == names_path(all, p) by {
                        push_names(before, c, p);
                    }
                }
            },
            None => {},
        }
        i += 1;
    }
    let ghost first = all;
    let mut k: usize = 0;
    while k < others.len()
        invariant
            k <= others.len(),
            rest == models(others@),
            all == with_unknown(first, root@, rest, k as int),
            found.len() == all.len(),
            forall|j: int|
                0 <= j < found.len() ==> (#[trigger] found@[j]).0@ == all[j].0 && found@[j].1@ == all[j],
            forall|p: Path| #[trigger] known@.contains(p) == names_path(all, p),
        decreases others.len() - k,
    {
        assert(rest[k as int] == others@[k as int]@);
        if !others[k].as_str().is_empty() {
            let path = root.join_text(others[k].as_str());
            if known.insert(path.dup()) {
                let ghost before = all;
                let ghost c = (path@, KindModel::Added);
                found.push((path.dup(), ChangedFile { path, kind: ChangeKind::Added }));
                proof {
                    all = all.push(c);
                    assert forall|p: Path| #[trigger] known@.contains(p) == names_path(all, p) by {
                        push_names(before, c, p);
                    }
                }
            } else {
                assert(known@ =~= known@.insert(path@));
            }
        }
        k += 1;
    }
    let ghost keys = keys_of(found@);
    let ghost items = items_of(found@);
    let ghost f = |c: ChangedFile| c@;
    let out = sort_by_key(found);
    proof {
        assert(items.map_values(f) =~= all);
        assert(keys =~= change_paths(all));
        sorting_maps::<FilePath, ChangedFile, (Path, KindModel)>(keys, items, f, keys.len() as int);
        assert(change_models(out@) == out@.map_values(f));
    }
    out
}

proof fn push_names(list: Seq<(Path, KindModel)>, c: (Path, KindModel), p: Path)
    ensures
        names_path(list.push(c), p) == (names_path(list, p) || c.0 == p),
{
    let after = list.push(c);
    if names_path(list, p) {
        let i = choose|i: int| 0 <= i < list.len() && (#[trigger] list[i]).0 == p;
        assert(after[i].0 == p);
    }
    if c.0 == p {
        assert(after[list.len() as int].0 == p);
    }
    if names_path(after, p) && c.0 != p {
        let i = choose|i: int| 0 <= i < after.len() && (#[trigger] after[i]).0 == p;
        assert(list[i].0 == p);
    }
}

/// The root of the repository, as `git rev-parse --show-toplevel` prints it.
pub fn repository_root(output: &str) -> (r: FilePath)
    ensures
        r@ == components(trimmed(output@)),
{
    FilePath::parse(trim(output).as_str())
}

/// The name of a file in a revision, as `git show` takes it.
pub fn object_name(root: &FilePath, revision: &str, path: &FilePath) -> (r: String)
    ensures
        r@ == revision@ + ":"@ + shown(relative_to(path@, root@)),
{
    let inner = relative(path, root);
    join3(revision, ":", inner.display().as_str())
}

/// A file of a revision that is extracted: none below or named like a file of secrets.
pub open spec fn is_extracted(path: Path) -> bool {
    forall|i: int| 0 <= i < path.len() ==> !".env"@.is_prefix_of(#[trigger] path[i])
}

/// Whether a file of an archived revision is extracted.
pub fn extracts(path: &FilePath) -> (r: bool)
    ensures
        r == is_extracted(path@),
{
    let mut i: usize = 0;
    while i < path.parts.len()
        invariant
            i <= path.parts.len(),
            forall|k: int| 0 <= k < i ==> !".env"@.is_prefix_of(#[trigger] path@[k]),
        decreases path.parts.len() - i,
    {
        assert(path@[i as int] == path.parts@[i as int].text@);
        if starts_with(path.parts[i].text.as_str(), ".env") {
            return false;
        }
        i += 1;
    }
    true
}

/// A line of changes says what became of a file: added, modified (or changed in its type),
/// deleted, or renamed, with any text behind the letter. A line of another kind says nothing.
pub proof fn lines_say_what_became_of_files(root: Path, status: Text, first: Text, second: Text)
    requires
        status.len() > 0,
        !status.contains('\t'),
        !first.contains('\t'),
        !second.contains('\t'),
    ensures
        status[0] == 'A' ==> line_change(root, status + seq!['\t'] + first) == Some(
            (joined_path(root, components(first)), KindModel::Added),
        ),
        status[0] == 'M' || status[0] == 'T' ==> line_change(root, status + seq!['\t'] + first) == Some(
            (joined_path(root, components(first)), KindModel::Modified),
        ),
        status[0] == 'D' ==> line_change(root, status + seq!['\t'] + first) == Some(
            (joined_path(root, components(first)), KindModel::Deleted),
        ),
        status[0] == 'R' ==> line_change(root, status + seq!['\t'] + first + seq!['\t'] + second)
            == Some((joined_path(root, components(second)), KindModel::Renamed(components(first)))),
        status[0] != 'A' && status[0] != 'M' && status[0] != 'T' && status[0] != 'D' && status[0]
            != 'R' ==> line_change(root, status + seq!['\t'] + first) is None,
        line_change(root, status) is None,
{
    let one = status + seq!['\t'] + first;
    let two = one + seq!['\t'] + second;
    crate::text::whole_is_one_piece(status, '\t');
    crate::text::whole_is_one_piece(first, '\t');
    crate::text::whole_is_one_piece(second, '\t');
    crate::text::pieces_of_two(status, first, '\t');
    crate::text::pieces_of_two(one, second, '\t');
    assert(pieces(one, '\t') =~= seq![status, first]);
    assert(pieces(two, '\t') =~= seq![status, first, second]);
}

/// A file is in the list of changes where a line of changes says so, or where it is not under
/// version control and no change names it; then it counts as added.
pub proof fn files_out_of_control_are_added(
    changes: Seq<(Path, KindModel)>,
    root: Path,
    list: Seq<Text>,
    n: int,
    path: Path,
    kind: KindModel,
)
    requires
        0 <= n <= list.len(),
    ensures
        with_unknown(changes, root, list, n).contains((path, kind)) <==> changes.contains((path, kind))
            || (kind == KindModel::Added && !names_path(changes, path) && exists|i: int|
            0 <= i < n && (#[trigger] list[i]).len() > 0 && joined_path(root, components(list[i]))
                == path),
        names_path(with_unknown(changes, root, list, n), path) <==> names_path(changes, path) || exists|
            i: int,
        |
            0 <= i < n && (#[trigger] list[i]).len() > 0 && joined_path(root, components(list[i]))
                == path,
    decreases n,
{
    if n > 0 {
        files_out_of_control_are_added(changes, root, list, n - 1, path, kind);
        let before = with_unknown(changes, root, list, n - 1);
        let all = with_unknown(changes, root, list, n);
        let added = joined_path(root, components(list[n - 1]));
        let e = (path, kind);
        if before.contains(e) {
            let k = choose|k: int| 0 <= k < before.len() && before[k] == e;
            assert(all[k] == e);
        }
        if names_path(before, path) {
            let k = choose|k: int| 0 <= k < before.len() && (#[trigger] before[k]).0 == path;
            assert(all[k].0 == path);
        }
        if all.contains(e) && !before.contains(e) {
            let k = choose|k: int| 0 <= k < all.len() && all[k] == e;
            assert(k == before.len());
            assert(list[n - 1].len() > 0 && added == path);
            if names_path(changes, path) {
                assert(names_path(before, path));
            }
        }
        if names_path(all, path) && !names_path(before, path) {
            let k = choose|k: int| 0 <= k < all.len() && (#[trigger] all[k]).0 == path;
            if k < before.len() {
                assert(before[k].0 == path);
            }
            assert(list[n - 1].len() > 0 && added == path);
        }
        if list[n - 1].len() > 0 && added == path && all != before {
            assert(all[before.len() as int] == (path, KindModel::Added));
            assert(all[before.len() as int].0 == path);
        }
    }
}

/// Every line that says something is in the list of changes, and nothing else is.
pub proof fn changes_are_what_lines_say(
    root: Path,
    list: Seq<Text>,
    n: int,
    change: (Path, KindModel),
)
    requires
        0 <= n <= list.len(),
    ensures
        listed_changes(root, list, n).contains(change) <==> exists|i: int|
            0 <= i < n && line_change(root, #[trigger] list[i]) == Some(change),
    decreases n,
{
    if n > 0 {
        changes_are_what_lines_say(root, list, n - 1, change);
        let before = listed_changes(root, list, n - 1);
        let all = listed_changes(root, list, n);
        if before.contains(change) {
            let k = choose|k: int| 0 <= k < before.len() && before[k] == change;
            assert(all[k] == change);
        }
        if all.contains(change) && !before.contains(change) {
            let k = choose|k: int| 0 <= k < all.len() && all[k] == change;
            assert(k == before.len());
            assert(line_change(root, list[n - 1]) == Some(change));
        }
        if line_change(root, list[n - 1]) == Some(change) {
            assert(all[before.len() as int] == change);
        }
    }
}

/// Lines end in a line feed, with or without a return in front of it; the last may end without.
pub proof fn texts_are_cut_at_line_feeds(line: Text, rest: Text)
    requires
        !line.contains('\n'),
        !rest.contains('\n'),
        line.len() == 0 || line.last() != '\r',
    ensures
        rest.len() > 0 ==> lines(line + seq!['\n'] + rest) == seq![line, rest],
        lines(line + seq!['\n']) == seq![line],
        lines(line + seq!['\r', '\n']) == seq![line],
        lines(Seq::empty()) == Seq::<Text>::empty(),
{
    let none = Seq::<char>::empty();
    let returned = line + seq!['\r'];
    crate::text::whole_is_one_piece(line, '\n');
    crate::text::whole_is_one_piece(rest, '\n');
    crate::text::whole_is_one_piece(none, '\n');
    assert forall|i: int| 0 <= i < returned.len() implies returned[i] != '\n' by {
        if i < line.len() {
            assert(line.contains(line[i]));
        }
    }
    crate::text::whole_is_one_piece(returned, '\n');
    crate::text::pieces_of_two(line, rest, '\n');
    crate::text::pieces_of_two(line, none, '\n');
    crate::text::pieces_of_two(returned, none, '\n');
    assert(line + seq!['\n'] =~= line + seq!['\n'] + none);
    assert(line + seq!['\r', '\n'] =~= returned + seq!['\n'] + none);
    assert(pieces(line + seq!['\n'] + rest, '\n') =~= seq![line, rest]);
    assert(pieces(line + seq!['\n'], '\n') =~= seq![line, none]);
    assert(pieces(line + seq!['\r', '\n'], '\n') =~= seq![returned, none]);
    assert(without_return(returned) =~= line);
    reveal_with_fuel(first_lines, 3);
    assert(lines(line + seq!['\n'] + rest) =~= if rest.len() > 0 {
        seq![line, rest]
    } else {
        seq![line]
    });
    assert(lines(line + seq!['\n']) =~= seq![line]);
    assert(lines(line + seq!['\r', '\n']) =~= seq![line]);
    assert(lines(none) =~= Seq::<Text>::empty());
}

/// Files of secrets, and what lies below a directory named like one, are not extracted.
pub proof fn secrets_are_not_extracted(path: Path, i: int, rest: Text)
    requires
        0 <= i < path.len(),
        path[i] == ".env"@ + rest,
    ensures
        !is_extracted(path),
{
    assert(".env"@.is_prefix_of(path[i])) by {
        assert(path[i].take(".env"@.len() as int) =~= ".env"@);
    }
}

/// Every other file is.
pub proof fn other_files_are_extracted(path: Path)
    requires
        forall|i: int| 0 <= i < path.len() && (#[trigger] path[i]).len() >= 4 ==> path[i].take(4)
            != ".env"@,
    ensures
        is_extracted(path),
{
    reveal_strlit(".env");
    assert(".env"@.len() == 4);
    assert forall|i: int| 0 <= i < path.len() implies !".env"@.is_prefix_of(#[trigger] path[i]) by {
        if ".env"@.is_prefix_of(path[i]) {
            assert(path[i].take(4) =~= ".env"@);
        }
    }
}

} // verus!
