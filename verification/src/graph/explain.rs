//! Why one node depends on another.
use vstd::prelude::*;

use crate::collections::{first_from, KeyMap, KeySet};
use crate::graph::node::{Node, NodeModel};
use crate::graph::resolve::{Scope, World};
use crate::graph::targets::{is_target_file, target_file};
use crate::order::Key;
use crate::parser::{
    entry_symbol, registry_entry_symbol, ImportedName, ParsedModule, SourceLocation, SymbolInfo,
    MODULE_INIT,
};
use crate::path::FilePath;
use crate::text::{join2, join3, same};

verus! {

/// The reason for an edge: a sentence, and the place in the source that it is about.
pub struct EdgeExplanation {
    pub detail: String,
    pub path: Option<FilePath>,
    pub location: Option<SourceLocation>,
}

/// The same as a mathematical value.
pub ghost struct Reason {
    pub detail: Seq<char>,
    pub path: Option<Seq<Seq<char>>>,
    pub location: Option<SourceLocation>,
}

impl View for EdgeExplanation {
    type V = Reason;

    open spec fn view(&self) -> Reason {
        Reason { detail: self.detail@, path: self.path.model(), location: self.location }
    }
}

/// `text` between backquotes.
pub open spec fn ticked(text: Seq<char>) -> Seq<char> {
    "`"@ + text + "`"@
}

/// The first `n` names, each between backquotes, with commas between them.
pub open spec fn ticked_list(names: Seq<Seq<char>>, n: int) -> Seq<char>
    decreases n,
{
    if n <= 0 {
        Seq::empty()
    } else if n == 1 {
        ticked(names[0])
    } else {
        ticked_list(names, n - 1) + ", "@ + ticked(names[n - 1])
    }
}

/// What an import takes, in words.
pub open spec fn import_words(imported: ImportedName) -> Seq<char> {
    match imported {
        ImportedName::Named(name) => ticked(name@),
        ImportedName::Namespace { members: Some(members) } => "namespace members "@ + ticked_list(
            members.list(),
            members.list().len() as int,
        ),
        ImportedName::Namespace { members: None } => "the namespace"@,
    }
}

pub open spec fn at_place<V>(m: Map<Seq<char>, V>, k: Seq<char>) -> Option<V> {
    if m.dom().contains(k) {
        Some(m[k])
    } else {
        None
    }
}

impl World {
    /// Reading `key` alone from `registry` leads to `dependency`.
    pub open spec fn reads_key(
        self,
        consumer: NodeModel,
        dependency: NodeModel,
        registry: Seq<char>,
        key: Seq<char>,
    ) -> bool {
        match self.keyed(consumer.0, registry, set![key]) {
            Some(nodes) => nodes.contains(dependency),
            None => false,
        }
    }

    pub open spec fn key_reads(
        self,
        consumer: NodeModel,
        dependency: NodeModel,
        registry: Seq<char>,
        keys: Seq<Seq<char>>,
    ) -> spec_fn(int) -> bool {
        |j: int| self.reads_key(consumer, dependency, registry, keys[j])
    }

    /// The symbol reads a key of its `i`th registry that leads to `dependency`.
    pub open spec fn registry_reads(
        self,
        consumer: NodeModel,
        dependency: NodeModel,
        symbol: SymbolInfo,
    ) -> spec_fn(int) -> bool {
        |i: int|
            {
                let registry = symbol.keyed_dependencies.keys()[i];
                let keys = symbol.keyed_dependencies@[registry].list();
                first_from(
                    self.key_reads(consumer, dependency, registry, keys),
                    0,
                    keys.len() as int,
                ) is Some
            }
    }

    /// The reason that the consumer reads a registry key which leads to the dependency.
    pub open spec fn key_reason(self, consumer: NodeModel, dependency: NodeModel) -> Option<Reason> {
        let m = self.modules[consumer.0];
        if !m.symbols@.dom().contains(consumer.1) {
            None
        } else {
            let symbol = m.symbols@[consumer.1];
            let registries = symbol.keyed_dependencies.keys();
            match first_from(
                self.registry_reads(consumer, dependency, symbol),
                0,
                registries.len() as int,
            ) {
                Some(i) => {
                    let registry = registries[i];
                    let keys = symbol.keyed_dependencies@[registry].list();
                    let j = first_from(
                        self.key_reads(consumer, dependency, registry, keys),
                        0,
                        keys.len() as int,
                    )->0;
                    let source = match at_place(m.imports@, registry) {
                        Some(import) => " from `"@ + import.source@ + "`"@,
                        None => Seq::empty(),
                    };
                    Some(
                        (Reason {
                            detail: ticked(consumer.1) + " reads registry key "@ + ticked(keys[j])
                                + source,
                            path: Some(consumer.0),
                            location: at_place(symbol.dependency_locations@, registry),
                        }),
                    )
                },
                None => None,
            }
        }
    }

    pub open spec fn is_entry(self, consumer: NodeModel, dependency: NodeModel) -> spec_fn(int) -> bool {
        |i: int|
            dependency.1 == entry_symbol(
                consumer.1,
                self.modules[consumer.0].registries@[consumer.1].entries.keys()[i],
            )
    }

    /// The reason that the dependency is an entry of the registry that consumes it.
    pub open spec fn entry_reason(self, consumer: NodeModel, dependency: NodeModel) -> Option<Reason> {
        let m = self.modules[consumer.0];
        if !m.registries@.dom().contains(consumer.1) {
            None
        } else {
            let entries = m.registries@[consumer.1].entries;
            match first_from(self.is_entry(consumer, dependency), 0, entries.keys().len() as int) {
                Some(i) => Some(
                    (Reason {
                        detail: "registry "@ + ticked(consumer.1) + " contains key "@ + ticked(
                            entries.keys()[i],
                        ),
                        path: Some(consumer.0),
                        location: Some(entries@[entries.keys()[i]].location),
                    }),
                ),
                None => None,
            }
        }
    }

    /// The reason that the consumer is the local name of an import.
    pub open spec fn import_reason(self, consumer: NodeModel, type_only: bool) -> Option<Reason> {
        let m = self.modules[consumer.0];
        let import = if type_only {
            at_place(m.type_imports@, consumer.1)
        } else {
            at_place(m.imports@, consumer.1)
        };
        match import {
            Some(import) => Some(
                (Reason {
                    detail: ticked(consumer.1) + " imports "@ + (if type_only {
                        "type "@
                    } else {
                        Seq::empty()
                    }) + import_words(import.imported) + " from "@ + ticked(import.source@),
                    path: Some(consumer.0),
                    location: Some(import.location),
                }),
            ),
            None => None,
        }
    }

    /// The reason that the consumer mentions the dependency, which is declared beside it.
    pub open spec fn mention_reason(
        self,
        consumer: NodeModel,
        dependency: NodeModel,
        type_only: bool,
    ) -> Option<Reason> {
        let m = self.modules[consumer.0];
        if consumer.0 != dependency.0 || !m.symbols@.dom().contains(consumer.1) {
            None
        } else {
            let symbol = m.symbols@[consumer.1];
            let location = if type_only {
                at_place(symbol.type_dependency_locations@, dependency.1)
            } else {
                at_place(symbol.dependency_locations@, dependency.1)
            };
            match location {
                Some(location) => Some(
                    (Reason {
                        detail: ticked(consumer.1) + " references "@ + ticked(dependency.1)
                            + " as a "@ + kind_word(type_only) + " dependency"@,
                        path: Some(consumer.0),
                        location: Some(location),
                    }),
                ),
                None => None,
            }
        }
    }

    pub open spec fn loads(self, consumer: NodeModel, dependency: NodeModel) -> spec_fn(int) -> bool {
        |i: int|
            {
                let load = self.modules[consumer.0].runtime_loads@[i];
                load.consumers@.contains(consumer.1) && self.resolve(consumer.0, load.source@) == Some(
                    dependency.0,
                )
            }
    }

    /// The reason that the consumer loads the dependency's module by a call.
    pub open spec fn load_reason(self, consumer: NodeModel, dependency: NodeModel) -> Option<Reason> {
        let list = self.modules[consumer.0].runtime_loads@;
        match first_from(self.loads(consumer, dependency), 0, list.len() as int) {
            Some(i) => Some(
                (Reason {
                    detail: ticked(consumer.1) + " loads "@ + ticked(list[i].source@)
                        + " at runtime"@,
                    path: Some(consumer.0),
                    location: Some(list[i].location),
                }),
            ),
            None => None,
        }
    }

    pub open spec fn requests(self, consumer: NodeModel, dependency: NodeModel) -> spec_fn(int) -> bool {
        |i: int|
            self.resolve(consumer.0, self.modules[consumer.0].module_requests.list()[i]) == Some(
                dependency.0,
            )
    }

    pub open spec fn import_from(self, path: Seq<Seq<char>>, request: Seq<char>) -> spec_fn(int) -> bool {
        |i: int|
            self.modules[path].imports@[self.modules[path].imports.keys()[i]].source@ == request
    }

    /// The reason that loading one module loads the other.
    pub open spec fn request_reason(self, consumer: NodeModel, dependency: NodeModel) -> Option<Reason> {
        let m = self.modules[consumer.0];
        let list = m.module_requests.list();
        if consumer.1 != MODULE_INIT@ || dependency.1 != MODULE_INIT@ {
            None
        } else {
            match first_from(self.requests(consumer, dependency), 0, list.len() as int) {
                Some(i) => Some(
                    (Reason {
                        detail: "module loads "@ + ticked(list[i]) + " at runtime"@,
                        path: Some(consumer.0),
                        location: match first_from(
                            self.import_from(consumer.0, list[i]),
                            0,
                            m.imports.keys().len() as int,
                        ) {
                            Some(k) => Some(m.imports@[m.imports.keys()[k]].location),
                            None => None,
                        },
                    }),
                ),
                None => None,
            }
        }
    }
}

pub open spec fn kind_word(type_only: bool) -> Seq<char> {
    if type_only {
        "type"@
    } else {
        "runtime"@
    }
}

/// The first of two reasons that there is.
pub open spec fn or_else(first: Option<Reason>, second: Option<Reason>) -> Option<Reason> {
    match first {
        Some(reason) => Some(reason),
        None => second,
    }
}

/// The reason for an edge. The rules are tried in this order: deployment targets; facts proved by
/// the compiler; registry keys; registry entries; imports; mentions beside the declaration; calls
/// that load a module; modules that load each other.
pub open spec fn reason_for(
    w: World,
    typed: Map<(NodeModel, NodeModel), SourceLocation>,
    consumer: NodeModel,
    dependency: NodeModel,
    type_only: bool,
) -> Reason {
    if consumer.0 == target_file() {
        Reason {
            detail: "deployment target "@ + ticked(consumer.1) + " includes "@ + ticked(
                dependency.1,
            ),
            path: None,
            location: None,
        }
    } else {
        let found = if !w.modules.dom().contains(consumer.0) {
            None
        } else if type_only {
            or_else(
                w.import_reason(consumer, true),
                or_else(
                    w.mention_reason(consumer, dependency, true),
                    or_else(
                        w.load_reason(consumer, dependency),
                        w.request_reason(consumer, dependency),
                    ),
                ),
            )
        } else if typed.dom().contains((consumer, dependency)) {
            Some(
                (Reason {
                    detail: ticked(consumer.1) + " passes a TypeScript-proven registry key"@,
                    path: Some(consumer.0),
                    location: Some(typed[(consumer, dependency)]),
                }),
            )
        } else {
            or_else(
                w.key_reason(consumer, dependency),
                or_else(
                    w.entry_reason(consumer, dependency),
                    or_else(
                        w.import_reason(consumer, false),
                        or_else(
                            w.mention_reason(consumer, dependency, false),
                            or_else(
                                w.load_reason(consumer, dependency),
                                w.request_reason(consumer, dependency),
                            ),
                        ),
                    ),
                ),
            )
        };
        match found {
            Some(reason) => reason,
            None => Reason {
                detail: kind_word(type_only) + " dependency"@,
                path: Some(consumer.0),
                location: None,
            },
        }
    }
}

fn tick(text: &str) -> (r: String)
    ensures
        r@ == ticked(text@),
{
    join3("`", text, "`")
}

fn tick_list(names: &KeySet<String>) -> (r: String)
    ensures
        r@ == ticked_list(names.list(), names.list().len() as int),
{
    let mut out = String::new();
    let n = names.len();
    let mut i: usize = 0;
    while i < n
        invariant
            i <= n,
            n == names.list().len(),
            out@ == ticked_list(names.list(), i as int),
        decreases n - i,
    {
        if i > 0 {
            out.append(", ");
        }
        out.append(tick(names.at(i).as_str()).as_str());
        if i == 0 {
            assert(out@ =~= ticked(names.list()[0]));
        }
        i += 1;
    }
    out
}

fn words_for(imported: &ImportedName) -> (r: String)
    ensures
        r@ == import_words(*imported),
{
    match imported {
        ImportedName::Named(name) => tick(name.as_str()),
        ImportedName::Namespace { members: Some(members) } => join2(
            "namespace members ",
            tick_list(members).as_str(),
        ),
        ImportedName::Namespace { members: None } => "the namespace".to_owned(),
    }
}

fn place_of(m: &KeyMap<String, SourceLocation>, k: &String) -> (r: Option<SourceLocation>)
    ensures
        r == at_place(m@, k@),
{
    match m.get(k) {
        Some(location) => Some(*location),
        None => None,
    }
}

impl<'a> Scope<'a> {
    fn first_key(
        &self,
        consumer: &Node,
        dependency: &Node,
        registry: &String,
        keys: &KeySet<String>,
    ) -> (r: Option<usize>)
        ensures
            match r {
                Some(j) => j < keys.list().len() && first_from(
                    self@.key_reads(consumer@, dependency@, registry@, keys.list()),
                    0,
                    keys.list().len() as int,
                ) == Some(j as int),
                None => first_from(
                    self@.key_reads(consumer@, dependency@, registry@, keys.list()),
                    0,
                    keys.list().len() as int,
                ) is None,
            },
    {
        let ghost p = self@.key_reads(consumer@, dependency@, registry@, keys.list());
        let n = keys.len();
        let mut j: usize = 0;
        while j < n
            invariant
                j <= n,
                n == keys.list().len(),
                p == self@.key_reads(consumer@, dependency@, registry@, keys.list()),
                first_from(p, j as int, n as int) == first_from(p, 0, n as int),
            decreases n - j,
        {
            let mut one: KeySet<String> = KeySet::new();
            one.insert(keys.at(j).clone());
            assert(one@ =~= set![keys.list()[j as int]]);
            match self.resolve_keyed_dependency(&consumer.file, registry, &one) {
                Some(nodes) => if nodes.contains(dependency) {
                    assert(p(j as int));
                    return Some(j);
                },
                None => {},
            }
            assert(!p(j as int));
            j += 1;
        }
        None
    }

    fn key_reason(&self, m: &ParsedModule, consumer: &Node, dependency: &Node) -> (r: Option<
        EdgeExplanation,
    >)
        requires
            self@.modules.dom().contains(consumer@.0),
            self@.modules[consumer@.0] == *m,
        ensures
            match r {
                Some(e) => self@.key_reason(consumer@, dependency@) == Some(e@),
                None => self@.key_reason(consumer@, dependency@) is None,
            },
    {
        let symbol = match m.symbols.get(&consumer.symbol) {
            Some(symbol) => symbol,
            None => {
                return None;
            },
        };
        let n = symbol.keyed_dependencies.len();
        let ghost p = self@.registry_reads(consumer@, dependency@, *symbol);
        let mut i: usize = 0;
        while i < n
            invariant
                i <= n,
                n == symbol.keyed_dependencies.keys().len(),
                self@.modules.dom().contains(consumer@.0),
                self@.modules[consumer@.0] == *m,
                m.symbols@.dom().contains(consumer@.1),
                m.symbols@[consumer@.1] == *symbol,
                p == self@.registry_reads(consumer@, dependency@, *symbol),
                first_from(p, i as int, n as int) == first_from(p, 0, n as int),
            decreases n - i,
        {
            let registry = symbol.keyed_dependencies.key_at(i);
            let keys = symbol.keyed_dependencies.value_at(i);
            match self.first_key(consumer, dependency, registry, keys) {
                Some(j) => {
                    assert(p(i as int));
                    let source = match m.imports.get(registry) {
                        Some(import) => join3(" from `", import.source.as_str(), "`"),
                        None => String::new(),
                    };
                    let mut detail = tick(consumer.symbol.as_str());
                    detail.append(" reads registry key ");
                    detail.append(tick(keys.at(j).as_str()).as_str());
                    detail.append(source.as_str());
                    let r = EdgeExplanation {
                        detail,
                        path: Some(consumer.file.dup()),
                        location: place_of(&symbol.dependency_locations, registry),
                    };
                    assert(source@ =~= match at_place(m.imports@, registry@) {
                        Some(import) => " from `"@ + import.source@ + "`"@,
                        None => Seq::empty(),
                    });
                    return Some(r);
                },
                None => {},
            }
            assert(!p(i as int));
            i += 1;
        }
        None
    }

    fn entry_reason(&self, m: &ParsedModule, consumer: &Node, dependency: &Node) -> (r: Option<
        EdgeExplanation,
    >)
        requires
            self@.modules.dom().contains(consumer@.0),
            self@.modules[consumer@.0] == *m,
        ensures
            match r {
                Some(e) => self@.entry_reason(consumer@, dependency@) == Some(e@),
                None => self@.entry_reason(consumer@, dependency@) is None,
            },
    {
        let registry = match m.registries.get(&consumer.symbol) {
            Some(registry) => registry,
            None => {
                return None;
            },
        };
        let n = registry.entries.len();
        let ghost p = self@.is_entry(consumer@, dependency@);
        let mut i: usize = 0;
        while i < n
            invariant
                i <= n,
                n == registry.entries.keys().len(),
                self@.modules[consumer@.0] == *m,
                m.registries@.dom().contains(consumer@.1),
                m.registries@[consumer@.1] == *registry,
                p == self@.is_entry(consumer@, dependency@),
                first_from(p, i as int, n as int) == first_from(p, 0, n as int),
            decreases n - i,
        {
            let key = registry.entries.key_at(i);
            let symbol = registry_entry_symbol(consumer.symbol.as_str(), key.as_str());
            if dependency.symbol == symbol {
                assert(p(i as int));
                let mut detail = "registry ".to_owned();
                detail.append(tick(consumer.symbol.as_str()).as_str());
                detail.append(" contains key ");
                detail.append(tick(key.as_str()).as_str());
                return Some(
                    EdgeExplanation {
                        detail,
                        path: Some(consumer.file.dup()),
                        location: Some(registry.entries.value_at(i).location),
                    },
                );
            }
            assert(!p(i as int));
            i += 1;
        }
        None
    }

    fn import_reason(&self, m: &ParsedModule, consumer: &Node, type_only: bool) -> (r: Option<
        EdgeExplanation,
    >)
        requires
            self@.modules.dom().contains(consumer@.0),
            self@.modules[consumer@.0] == *m,
        ensures
            match r {
                Some(e) => self@.import_reason(consumer@, type_only) == Some(e@),
                None => self@.import_reason(consumer@, type_only) is None,
            },
    {
        let import = if type_only {
            m.type_imports.get(&consumer.symbol)
        } else {
            m.imports.get(&consumer.symbol)
        };
        match import {
            Some(import) => {
                let mut detail = tick(consumer.symbol.as_str());
                detail.append(" imports ");
                let ghost before = detail@;
                if type_only {
                    detail.append("type ");
                } else {
                    assert(before + Seq::empty() =~= before);
                }
                detail.append(words_for(&import.imported).as_str());
                detail.append(" from ");
                detail.append(tick(import.source.as_str()).as_str());
                Some(
                    EdgeExplanation {
                        detail,
                        path: Some(consumer.file.dup()),
                        location: Some(import.location),
                    },
                )
            },
            None => None,
        }
    }

    fn mention_reason(
        &self,
        m: &ParsedModule,
        consumer: &Node,
        dependency: &Node,
        type_only: bool,
    ) -> (r: Option<EdgeExplanation>)
        requires
            self@.modules.dom().contains(consumer@.0),
            self@.modules[consumer@.0] == *m,
        ensures
            match r {
                Some(e) => self@.mention_reason(consumer@, dependency@, type_only) == Some(e@),
                None => self@.mention_reason(consumer@, dependency@, type_only) is None,
            },
    {
        if !consumer.file.same_as(&dependency.file) {
            return None;
        }
        let symbol = match m.symbols.get(&consumer.symbol) {
            Some(symbol) => symbol,
            None => {
                return None;
            },
        };
        let location = if type_only {
            place_of(&symbol.type_dependency_locations, &dependency.symbol)
        } else {
            place_of(&symbol.dependency_locations, &dependency.symbol)
        };
        match location {
            Some(location) => {
                let mut detail = tick(consumer.symbol.as_str());
                detail.append(" references ");
                detail.append(tick(dependency.symbol.as_str()).as_str());
                detail.append(" as a ");
                detail.append(word_for(type_only));
                detail.append(" dependency");
                Some(
                    EdgeExplanation {
                        detail,
                        path: Some(consumer.file.dup()),
                        location: Some(location),
                    },
                )
            },
            None => None,
        }
    }

    fn leads_to(&self, importer: &FilePath, request: &str, file: &FilePath) -> (r: bool)
        ensures
            r == (self@.resolve(importer@, request@) == Some(file@)),
    {
        match self.resolve(importer, request) {
            Some(path) => path.same_as(file),
            None => false,
        }
    }

    fn load_reason(&self, m: &ParsedModule, consumer: &Node, dependency: &Node) -> (r: Option<
        EdgeExplanation,
    >)
        requires
            self@.modules.dom().contains(consumer@.0),
            self@.modules[consumer@.0] == *m,
        ensures
            match r {
                Some(e) => self@.load_reason(consumer@, dependency@) == Some(e@),
                None => self@.load_reason(consumer@, dependency@) is None,
            },
    {
        let n = m.runtime_loads.len();
        let ghost p = self@.loads(consumer@, dependency@);
        let mut i: usize = 0;
        while i < n
            invariant
                i <= n,
                n == m.runtime_loads@.len(),
                self@.modules[consumer@.0] == *m,
                p == self@.loads(consumer@, dependency@),
                first_from(p, i as int, n as int) == first_from(p, 0, n as int),
            decreases n - i,
        {
            let load = &m.runtime_loads[i];
            if load.consumers.contains(&consumer.symbol) && self.leads_to(
                &consumer.file,
                load.source.as_str(),
                &dependency.file,
            ) {
                assert(p(i as int));
                let mut detail = tick(consumer.symbol.as_str());
                detail.append(" loads ");
                detail.append(tick(load.source.as_str()).as_str());
                detail.append(" at runtime");
                return Some(
                    EdgeExplanation {
                        detail,
                        path: Some(consumer.file.dup()),
                        location: Some(load.location),
                    },
                );
            }
            assert(!p(i as int));
            i += 1;
        }
        None
    }

    fn import_place(&self, m: &ParsedModule, path: &FilePath, request: &String) -> (r: Option<
        SourceLocation,
    >)
        requires
            self@.modules.dom().contains(path@),
            self@.modules[path@] == *m,
        ensures
            r == match first_from(
                self@.import_from(path@, request@),
                0,
                m.imports.keys().len() as int,
            ) {
                Some(k) => Some(m.imports@[m.imports.keys()[k]].location),
                None => None,
            },
    {
        let n = m.imports.len();
        let ghost p = self@.import_from(path@, request@);
        let mut i: usize = 0;
        while i < n
            invariant
                i <= n,
                n == m.imports.keys().len(),
                self@.modules[path@] == *m,
                p == self@.import_from(path@, request@),
                first_from(p, i as int, n as int) == first_from(p, 0, n as int),
            decreases n - i,
        {
            let import = m.imports.value_at(i);
            if import.source == *request {
                assert(p(i as int));
                return Some(import.location);
            }
            assert(!p(i as int));
            i += 1;
        }
        None
    }

    fn request_reason(&self, m: &ParsedModule, consumer: &Node, dependency: &Node) -> (r: Option<
        EdgeExplanation,
    >)
        requires
            self@.modules.dom().contains(consumer@.0),
            self@.modules[consumer@.0] == *m,
        ensures
            match r {
                Some(e) => self@.request_reason(consumer@, dependency@) == Some(e@),
                None => self@.request_reason(consumer@, dependency@) is None,
            },
    {
        if !same(consumer.symbol.as_str(), MODULE_INIT) || !same(
            dependency.symbol.as_str(),
            MODULE_INIT,
        ) {
            return None;
        }
        let n = m.module_requests.len();
        let ghost p = self@.requests(consumer@, dependency@);
        let mut i: usize = 0;
        while i < n
            invariant
                i <= n,
                n == m.module_requests.list().len(),
                self@.modules.dom().contains(consumer@.0),
                self@.modules[consumer@.0] == *m,
                consumer@.1 == MODULE_INIT@,
                dependency@.1 == MODULE_INIT@,
                p == self@.requests(consumer@, dependency@),
                first_from(p, i as int, n as int) == first_from(p, 0, n as int),
            decreases n - i,
        {
            let request = m.module_requests.at(i);
            if self.leads_to(&consumer.file, request.as_str(), &dependency.file) {
                assert(p(i as int));
                let mut detail = "module loads ".to_owned();
                detail.append(tick(request.as_str()).as_str());
                detail.append(" at runtime");
                return Some(
                    EdgeExplanation {
                        detail,
                        path: Some(consumer.file.dup()),
                        location: self.import_place(m, &consumer.file, request),
                    },
                );
            }
            assert(!p(i as int));
            i += 1;
        }
        None
    }

    /// Says why `consumer` depends on `dependency`.
    pub(crate) fn explain(
        &self,
        typed: &KeyMap<(Node, Node), SourceLocation>,
        consumer: &Node,
        dependency: &Node,
        type_only: bool,
    ) -> (r: EdgeExplanation)
        ensures
            r@ == reason_for(self@, typed@, consumer@, dependency@, type_only),
    {
        if is_target_file(&consumer.file) {
            let mut detail = "deployment target ".to_owned();
            detail.append(tick(consumer.symbol.as_str()).as_str());
            detail.append(" includes ");
            detail.append(tick(dependency.symbol.as_str()).as_str());
            return EdgeExplanation { detail, path: None, location: None };
        }
        match self.modules.get(&consumer.file) {
            Some(m) => {
                if !type_only {
                    let key = (consumer.dup(), dependency.dup());
                    match typed.get(&key) {
                        Some(location) => {
                            let detail = join2(
                                tick(consumer.symbol.as_str()).as_str(),
                                " passes a TypeScript-proven registry key",
                            );
                            return EdgeExplanation {
                                detail,
                                path: Some(consumer.file.dup()),
                                location: Some(*location),
                            };
                        },
                        None => {},
                    }
                    match self.key_reason(m, consumer, dependency) {
                        Some(reason) => {
                            return reason;
                        },
                        None => {},
                    }
                    match self.entry_reason(m, consumer, dependency) {
                        Some(reason) => {
                            return reason;
                        },
                        None => {},
                    }
                }
                match self.import_reason(m, consumer, type_only) {
                    Some(reason) => {
                        return reason;
                    },
                    None => {},
                }
                match self.mention_reason(m, consumer, dependency, type_only) {
                    Some(reason) => {
                        return reason;
                    },
                    None => {},
                }
                match self.load_reason(m, consumer, dependency) {
                    Some(reason) => {
                        return reason;
                    },
                    None => {},
                }
                match self.request_reason(m, consumer, dependency) {
                    Some(reason) => {
                        return reason;
                    },
                    None => {},
                }
            },
            None => {},
        }
        EdgeExplanation {
            detail: join2(word_for(type_only), " dependency"),
            path: Some(consumer.file.dup()),
            location: None,
        }
    }
}

fn word_for(type_only: bool) -> (r: &'static str)
    ensures
        r@ == kind_word(type_only),
{
    if type_only {
        "type"
    } else {
        "runtime"
    }
}

} // verus!
