//! Nodes, edges and findings in words.
use vstd::prelude::*;

use crate::diagnostics::{Diagnostic, Severity};
use crate::graph::explain::{EdgeExplanation, Reason};
use crate::graph::links::Finding;
use crate::graph::node::{Node, NodeModel};
use crate::graph::targets::{is_target_file, target_file};
use crate::order::{models, Key};
use crate::path::{shown, FilePath};
use crate::query::{OutputFormat, WarningPolicy};
use crate::text::{decimal, decimal_text, join2, join3};
use crate::words::texts_of;
use crate::workspace::owner::{relative, relative_to, Path};

verus! {

pub type Text = Seq<char>;

/// A path as it is seen from the root.
pub open spec fn local_name(root: Path, path: Path) -> Text {
    shown(relative_to(path, root))
}

pub fn display_path(root: &FilePath, path: &FilePath) -> (r: String)
    ensures
        r@ == local_name(root@, path@),
{
    relative(path, root).display()
}

/// A node in words.
pub open spec fn node_label(root: Path, n: NodeModel) -> Text {
    if n.0 == target_file() {
        "target "@ + n.1
    } else {
        local_name(root, n.0) + "#"@ + n.1
    }
}

pub fn display_node(root: &FilePath, node: &Node) -> (r: String)
    ensures
        r@ == node_label(root@, node@),
{
    if is_target_file(&node.file) {
        join2("target ", node.symbol.as_str())
    } else {
        join3(display_path(root, &node.file).as_str(), "#", node.symbol.as_str())
    }
}

/// The place that explains an edge, in words.
pub open spec fn reason_place(root: Path, reason: Reason) -> Option<Text> {
    match reason.path {
        Some(path) => match reason.location {
            Some(at) => Some(
                local_name(root, path) + ":"@ + decimal(at.line as nat) + ":"@ + decimal(
                    at.column as nat,
                ),
            ),
            None => Some(local_name(root, path)),
        },
        None => None,
    }
}

pub fn display_edge_location(root: &FilePath, explanation: &EdgeExplanation) -> (r: Option<String>)
    ensures
        r.model() == reason_place(root@, explanation@),
{
    match &explanation.path {
        Some(path) => {
            let mut out = display_path(root, path);
            match explanation.location {
                Some(at) => {
                    out.append(":");
                    out.append(decimal_text(at.line).as_str());
                    out.append(":");
                    out.append(decimal_text(at.column).as_str());
                },
                None => {},
            }
            Some(out)
        },
        None => None,
    }
}

pub open spec fn severity_name(severity: Severity) -> Text {
    match severity {
        Severity::Info => "Info"@,
        Severity::Warning => "Warning"@,
        Severity::Error => "Error"@,
    }
}

fn display_severity(severity: Severity) -> (r: &'static str)
    ensures
        r@ == severity_name(severity),
{
    match severity {
        Severity::Info => "Info",
        Severity::Warning => "Warning",
        Severity::Error => "Error",
    }
}

/// A finding that is shown.
pub open spec fn is_shown(d: Finding, warnings: WarningPolicy, include_info: bool) -> bool {
    &&& d.1.0 != Severity::Info || include_info
    &&& d.1.0 != Severity::Warning || warnings != WarningPolicy::Off
}

/// Where a finding is: nothing where it has no path, or that of the root itself.
pub open spec fn finding_place(root: Path, d: Finding) -> Text {
    match d.1.1.1.0 {
        Some(path) => if local_name(root, path).len() == 0 {
            Seq::empty()
        } else {
            " "@ + local_name(root, path)
        },
        None => Seq::empty(),
    }
}

/// The first line about a finding.
pub open spec fn finding_line(root: Path, d: Finding) -> Text {
    severity_name(d.1.0) + " "@ + d.0 + finding_place(root, d) + ": "@ + d.1.1.0
}

/// The lines about the first `n` files that take part in a finding.
pub open spec fn member_lines(root: Path, members: Seq<Path>, n: int) -> Seq<Text>
    decreases n,
{
    if n <= 0 {
        Seq::empty()
    } else {
        member_lines(root, members, n - 1).push("  - "@ + local_name(root, members[n - 1]))
    }
}

/// The lines about the first `n` findings.
pub open spec fn finding_lines(
    root: Path,
    list: Seq<Finding>,
    warnings: WarningPolicy,
    include_info: bool,
    n: int,
) -> Seq<Text>
    decreases n,
{
    if n <= 0 {
        Seq::empty()
    } else {
        let before = finding_lines(root, list, warnings, include_info, n - 1);
        let d = list[n - 1];
        if is_shown(d, warnings, include_info) {
            before.push(finding_line(root, d)) + member_lines(
                root,
                d.1.1.1.1,
                d.1.1.1.1.len() as int,
            )
        } else {
            before
        }
    }
}

/// Writes one line for each file that takes part.
pub(crate) fn list_members(root: &FilePath, members: &Vec<FilePath>, out: &mut Vec<String>)
    ensures
        texts_of(final(out)@) == texts_of(old(out)@) + member_lines(
            root@,
            models(members@),
            members@.len() as int,
        ),
{
    let ghost start = texts_of(out@);
    let ghost all = models(members@);
    let mut i: usize = 0;
    assert(texts_of(out@) =~= start + member_lines(root@, all, 0));
    while i < members.len()
        invariant
            i <= members.len(),
            all == models(members@),
            texts_of(out@) == start + member_lines(root@, all, i as int),
        decreases members.len() - i,
    {
        let ghost before = texts_of(out@);
        let line = join2("  - ", display_path(root, &members[i]).as_str());
        out.push(line);
        proof {
            assert(texts_of(out@) =~= before.push(line@));
            assert(texts_of(out@) =~= start + member_lines(root@, all, i + 1));
        }
        i += 1;
    }
}

fn write_finding(root: &FilePath, d: &Diagnostic) -> (r: String)
    ensures
        r@ == finding_line(root@, d.model()),
{
    let mut out = join3(display_severity(d.severity), " ", d.code);
    let ghost front = out@;
    match &d.path {
        Some(path) => {
            let name = display_path(root, path);
            let shown = chars_len(name.as_str());
            if shown > 0 {
                out.append(" ");
                out.append(name.as_str());
                assert(out@ =~= front + (" "@ + name@));
            }
        },
        None => {},
    }
    assert(out@ =~= front + finding_place(root@, d.model()));
    out.append(": ");
    out.append(d.message.as_str());
    out
}

fn chars_len(text: &str) -> (r: usize)
    ensures
        r == text@.len(),
{
    crate::order::chars_of(text).len()
}

/// Writes the findings that are to be shown; none where the answer is JSON.
pub fn diagnostic_lines(
    root: &FilePath,
    diagnostics: &Vec<Diagnostic>,
    format: OutputFormat,
    warnings: WarningPolicy,
    include_info: bool,
) -> (r: Vec<String>)
    ensures
        texts_of(r@) == if format == OutputFormat::Json {
            Seq::empty()
        } else {
            finding_lines(
                root@,
                models(diagnostics@),
                warnings,
                include_info,
                diagnostics@.len() as int,
            )
        },
{
    let mut out: Vec<String> = Vec::new();
    assert(texts_of(out@) =~= Seq::empty());
    match format {
        OutputFormat::Json => {
            return out;
        },
        _ => {},
    }
    let ghost all = models(diagnostics@);
    let mut i: usize = 0;
    while i < diagnostics.len()
        invariant
            i <= diagnostics.len(),
            all == models(diagnostics@),
            texts_of(out@) == finding_lines(root@, all, warnings, include_info, i as int),
        decreases diagnostics.len() - i,
    {
        let d = &diagnostics[i];
        let hidden = (d.severity == Severity::Info && !include_info) || (d.severity
            == Severity::Warning && warnings == WarningPolicy::Off);
        assert(hidden == !is_shown(all[i as int], warnings, include_info));
        if !hidden {
            let ghost before = texts_of(out@);
            let line = write_finding(root, d);
            out.push(line);
            assert(texts_of(out@) =~= before.push(line@));
            list_members(root, &d.members, &mut out);
            assert(models(d.members@).len() == d.members@.len());
        }
        i += 1;
    }
    out
}

pub open spec fn has_severity(list: Seq<Finding>, severity: Severity) -> bool {
    exists|i: int| 0 <= i < list.len() && (#[trigger] list[i]).1.0 == severity
}

/// Findings that fail a query: errors, and warnings where they count as errors.
pub open spec fn fails(list: Seq<Finding>, warnings: WarningPolicy) -> bool {
    has_severity(list, Severity::Error) || (warnings == WarningPolicy::Error && has_severity(
        list,
        Severity::Warning,
    ))
}

fn any_severity(diagnostics: &Vec<Diagnostic>, severity: Severity) -> (r: bool)
    ensures
        r == has_severity(models(diagnostics@), severity),
{
    let ghost all = models(diagnostics@);
    let mut i: usize = 0;
    while i < diagnostics.len()
        invariant
            i <= diagnostics.len(),
            all == models(diagnostics@),
            forall|k: int| 0 <= k < i ==> (#[trigger] all[k]).1.0 != severity,
        decreases diagnostics.len() - i,
    {
        assert(all[i as int].1.0 == diagnostics@[i as int].severity);
        if diagnostics[i].severity == severity {
            return true;
        }
        i += 1;
    }
    false
}

/// Whether findings fail a query.
pub fn diagnostics_fail(diagnostics: &Vec<Diagnostic>, warnings: WarningPolicy) -> (r: bool)
    ensures
        r == fails(models(diagnostics@), warnings),
{
    any_severity(diagnostics, Severity::Error) || (warnings == WarningPolicy::Error
        && any_severity(diagnostics, Severity::Warning))
}

} // verus!
