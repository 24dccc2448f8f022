//! Plugins that know of targets and dependencies which the sources do not show.
use vstd::prelude::*;

use crate::diagnostics::{Diagnostic, Severity};
use crate::graph::links::{finding, Finding};
use crate::order::{models, Key};
use crate::path::{joined_path, components, FilePath};
use crate::text::{join3, trim, trimmed};
use crate::workspace::owner::Path;

verus! {

pub type Text = Seq<char>;

/// A finding that is not to be reported: by its code, and where a pattern is given, only at the
/// paths that it matches.
pub struct DiagnosticExclusion {
    pub code: String,
    pub path: Option<String>,
    pub reason: String,
}

/// A plugin as the configuration names it.
pub struct PluginConfig {
    pub name: String,
    pub command: Vec<String>,
}

/// What a plugin says.
pub struct PluginResponse {
    pub targets: Vec<PluginTarget>,
    pub edges: Vec<PluginEdge>,
    pub diagnostics: Vec<PluginDiagnostic>,
}

/// A target with files that it starts from.
pub struct PluginTarget {
    pub package: String,
    pub roots: Vec<FilePath>,
}

/// A dependency between two symbols.
pub struct PluginEdge {
    pub consumer: PluginNode,
    pub dependency: PluginNode,
    pub kind: PluginEdgeKind,
}

pub struct PluginNode {
    pub path: FilePath,
    pub symbol: String,
}

#[derive(Clone, Copy, Debug, PartialEq, Eq, Structural)]
pub enum PluginEdgeKind {
    Runtime,
    Type,
}

pub struct PluginDiagnostic {
    pub severity: Severity,
    pub message: String,
    pub path: Option<FilePath>,
}

/// What all configured plugins say.
pub struct PluginOutput {
    pub targets: Vec<PluginTarget>,
    pub edges: Vec<PluginEdge>,
    pub diagnostics: Vec<Diagnostic>,
    pub exclusions: Vec<DiagnosticExclusion>,
}

impl Default for PluginEdgeKind {
    fn default() -> (r: PluginEdgeKind)
        ensures
            r == PluginEdgeKind::Runtime,
    {
        PluginEdgeKind::Runtime
    }
}

/// The configuration file of a workspace.
pub open spec fn config_file(root: Path) -> Path {
    joined_path(root, components("monoripple.json"@))
}

pub fn config_path(root: &FilePath) -> (r: FilePath)
    ensures
        r@ == config_file(root@),
{
    root.join_text("monoripple.json")
}

/// A plugin without a command, in words.
pub open spec fn empty_command(name: Text) -> Text {
    "plugin `"@ + name + "` has an empty command"@
}

impl PluginConfig {
    /// The program that the plugin runs; the rest of the command are its arguments.
    pub fn program(&self) -> (r: Result<&String, String>)
        ensures
            match r {
                Ok(program) => self.command@.len() > 0 && *program == self.command@[0],
                Err(fault) => self.command@.len() == 0 && fault@ == empty_command(self.name@),
            },
    {
        if self.command.len() == 0 {
            Err(join3("plugin `", self.name.as_str(), "` has an empty command"))
        } else {
            Ok(&self.command[0])
        }
    }
}

/// The finding that a plugin failed.
pub open spec fn failure(root: Path, name: Text, output: Text) -> Finding {
    finding(
        "MONORIPPLE_PLUGIN_FAILURE"@,
        Severity::Error,
        "plugin `"@ + name + "` failed: "@ + trimmed(output),
        Some(config_file(root)),
        Seq::empty(),
    )
}

/// A finding of a plugin.
pub open spec fn reported(root: Path, name: Text, d: PluginDiagnostic) -> Finding {
    finding(
        "MONORIPPLE_PLUGIN_DIAGNOSTIC"@,
        d.severity,
        "plugin `"@ + name + "`: "@ + d.message@,
        match d.path.model() {
            Some(path) => Some(joined_path(root, path)),
            None => None,
        },
        Seq::empty(),
    )
}

pub open spec fn all_reported(root: Path, name: Text, list: Seq<PluginDiagnostic>) -> Seq<Finding> {
    list.map_values(|d: PluginDiagnostic| reported(root, name, d))
}

impl PluginOutput {
    /// What is known before any plugin ran.
    pub fn new(exclusions: Vec<DiagnosticExclusion>) -> (r: PluginOutput)
        ensures
            r.targets@ == Seq::<PluginTarget>::empty(),
            r.edges@ == Seq::<PluginEdge>::empty(),
            r.diagnostics@ == Seq::<Diagnostic>::empty(),
            r.exclusions@ == exclusions@,
    {
        PluginOutput {
            targets: Vec::new(),
            edges: Vec::new(),
            diagnostics: Vec::new(),
            exclusions,
        }
    }

    /// Notes that a plugin failed with this output.
    pub fn plugin_failed(&mut self, root: &FilePath, name: &str, output: &str)
        ensures
            models(final(self).diagnostics@) == models(old(self).diagnostics@).push(
                failure(root@, name@, output@),
            ),
            final(self).targets@ == old(self).targets@,
            final(self).edges@ == old(self).edges@,
            final(self).exclusions@ == old(self).exclusions@,
    {
        let ghost start = models(self.diagnostics@);
        let mut message = join3("plugin `", name, "` failed: ");
        message.append(trim(output).as_str());
        let item = Diagnostic {
            code: "MONORIPPLE_PLUGIN_FAILURE",
            severity: Severity::Error,
            message,
            path: Some(config_path(root)),
            members: Vec::new(),
        };
        let ghost m = item.model();
        self.diagnostics.push(item);
        proof {
            assert(models(item.members@) =~= Seq::empty());
            assert(models(self.diagnostics@) =~= start.push(m));
        }
    }

    /// Takes over what a plugin said.
    pub fn plugin_responded(&mut self, root: &FilePath, name: &str, response: PluginResponse)
        ensures
            final(self).targets@ == old(self).targets@ + response.targets@,
            final(self).edges@ == old(self).edges@ + response.edges@,
            models(final(self).diagnostics@) == models(old(self).diagnostics@) + all_reported(
                root@,
                name@,
                response.diagnostics@,
            ),
            final(self).exclusions@ == old(self).exclusions@,
    {
        let ghost start = models(self.diagnostics@);
        let PluginResponse { mut targets, mut edges, diagnostics } = response;
        self.targets.append(&mut targets);
        self.edges.append(&mut edges);
        let ghost all = all_reported(root@, name@, diagnostics@);
        let mut i: usize = 0;
        assert(models(self.diagnostics@) =~= start + all.take(0));
        while i < diagnostics.len()
            invariant
                i <= diagnostics.len(),
                all == all_reported(root@, name@, diagnostics@),
                models(self.diagnostics@) == start + all.take(i as int),
                self.targets@ == old(self).targets@ + response.targets@,
                self.edges@ == old(self).edges@ + response.edges@,
                self.exclusions@ == old(self).exclusions@,
            decreases diagnostics.len() - i,
        {
            let d = &diagnostics[i];
            let mut message = join3("plugin `", name, "`: ");
            message.append(d.message.as_str());
            let path = match &d.path {
                Some(path) => Some(root.join(path)),
                None => None,
            };
            let item = Diagnostic {
                code: "MONORIPPLE_PLUGIN_DIAGNOSTIC",
                severity: d.severity,
                message,
                path,
                members: Vec::new(),
            };
            let ghost before = models(self.diagnostics@);
            let ghost m = item.model();
            self.diagnostics.push(item);
            proof {
                assert(models(item.members@) =~= Seq::empty());
                assert(m == reported(root@, name@, *d));
                assert(all[i as int] == m);
                assert(models(self.diagnostics@) =~= before.push(m));
                assert(all.take(i + 1) =~= all.take(i as int).push(m));
                assert(models(self.diagnostics@) =~= start + all.take(i + 1));
            }
            i += 1;
        }
        assert(all.take(i as int) =~= all);
    }
}

} // verus!
