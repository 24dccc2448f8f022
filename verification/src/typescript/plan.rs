//! What to ask the TypeScript compiler, and what follows from its answers.
use vstd::prelude::*;

use crate::collections::{ascending_list, ascending_list_is, KeyMap, KeySet};
use crate::order::Key;
use crate::parser::assemble::parsed;
use crate::parser::source::{location_at, SourceText};
use crate::parser::{parse_module, ParseError, ParsedModule, RegistryEntryInfo, RegistryInfo};
use crate::path::{shown, FilePath};
use crate::query::command::{contains_text, holds_text};
use crate::text::{join2, same, trim, trimmed};
use crate::typescript::candidates::{
    are_candidates, collect_candidates, contract_models, keys_view, CallModel, Callsite, Contract,
    ContractModel,
};
use crate::typescript::places::position_at;
use crate::typescript::{TypeScriptFact, TypeScriptFacts, TypeScriptRegistry};
use crate::words::texts_of;
use crate::workspace::owner::Path;

verus! {

pub type Text = Seq<char>;

/// A registry: the module that declares it, and its name.
pub type RegistryModel = (Path, Text);

/// What one module brings in.
pub struct ModuleInput {
    pub file: FilePath,
    pub source: String,
    pub registries: KeyMap<String, RegistryInfo>,
    pub contracts: Vec<Contract>,
    pub calls: Vec<Callsite>,
}

/// The calls to ask the compiler about.
pub struct TypeScriptPlan {
    pub contracts: Vec<Contract>,
    pub calls: Vec<Callsite>,
    pub registries: KeyMap<(FilePath, String), KeySet<String>>,
    pub sources: KeyMap<FilePath, String>,
}

#[verifier::ext_equal]
pub ghost struct PlanModel {
    pub contracts: Seq<ContractModel>,
    pub calls: Seq<(Path, CallModel)>,
    pub registries: Map<RegistryModel, Set<Text>>,
    pub sources: Map<Path, Text>,
}

pub open spec fn placed_calls(list: Seq<Callsite>) -> Seq<(Path, CallModel)> {
    list.map_values(|c: Callsite| (c.file@, c.call()))
}

pub open spec fn key_sets(m: Map<RegistryModel, KeySet<String>>) -> Map<RegistryModel, Set<Text>> {
    Map::new(|k: RegistryModel| m.dom().contains(k), |k: RegistryModel| m[k]@)
}

pub open spec fn source_texts(m: Map<Path, String>) -> Map<Path, Text> {
    Map::new(|k: Path| m.dom().contains(k), |k: Path| m[k]@)
}

impl View for TypeScriptPlan {
    type V = PlanModel;

    open spec fn view(&self) -> PlanModel {
        PlanModel {
            contracts: contract_models(self.contracts@),
            calls: placed_calls(self.calls@),
            registries: key_sets(self.registries@),
            sources: source_texts(self.sources@),
        }
    }
}

pub open spec fn no_plan() -> PlanModel {
    PlanModel {
        contracts: Seq::empty(),
        calls: Seq::empty(),
        registries: Map::empty(),
        sources: Map::empty(),
    }
}

/// The registries of a module, by its first `n` names.
pub open spec fn with_registries(
    known: Map<RegistryModel, Set<Text>>,
    file: Path,
    registries: Map<Text, RegistryInfo>,
    names: Seq<Text>,
    n: int,
) -> Map<RegistryModel, Set<Text>>
    decreases n,
{
    if n <= 0 {
        known
    } else {
        with_registries(known, file, registries, names, n - 1).insert(
            (file, names[n - 1]),
            registries[names[n - 1]].entries@.dom(),
        )
    }
}

/// The plan with one more module.
pub open spec fn with_module(p: PlanModel, m: ModuleInput) -> PlanModel {
    PlanModel {
        contracts: p.contracts + contract_models(m.contracts@),
        calls: p.calls + placed_calls(m.calls@),
        registries: with_registries(
            p.registries,
            m.file@,
            m.registries@,
            m.registries.keys(),
            m.registries.keys().len() as int,
        ),
        sources: p.sources.insert(m.file@, m.source@),
    }
}

pub open spec fn with_modules(modules: Seq<ModuleInput>, n: int) -> PlanModel
    decreases n,
{
    if n <= 0 {
        no_plan()
    } else {
        with_module(with_modules(modules, n - 1), modules[n - 1])
    }
}

/// A method of this name is promised.
pub open spec fn is_promised(contracts: Seq<ContractModel>, method: Text) -> bool {
    exists|i: int| 0 <= i < contracts.len() && (#[trigger] contracts[i]).1 == method
}

/// The calls among the first `n` whose methods are promised.
pub open spec fn promised_calls(p: PlanModel, n: int) -> Seq<(Path, CallModel)>
    decreases n,
{
    if n <= 0 {
        Seq::empty()
    } else if is_promised(p.contracts, p.calls[n - 1].1.method) {
        promised_calls(p, n - 1).push(p.calls[n - 1])
    } else {
        promised_calls(p, n - 1)
    }
}

/// The plan for some modules; it asks about promised methods only.
pub open spec fn planned(modules: Seq<ModuleInput>) -> PlanModel {
    let all = with_modules(modules, modules.len() as int);
    PlanModel { calls: promised_calls(all, all.calls.len() as int), ..all }
}

impl PlanModel {
    /// The text of every module that makes a call is known.
    pub open spec fn has_sources(self) -> bool {
        forall|i: int|
            0 <= i < self.calls.len() ==> self.sources.dom().contains((#[trigger] self.calls[i]).0)
    }

    /// Nothing is to be asked.
    pub open spec fn is_idle(self) -> bool {
        self.calls.len() == 0 || self.registries.dom() == Set::<RegistryModel>::empty()
    }

    pub open spec fn names(self) -> Seq<RegistryModel> {
        ascending_list::<(FilePath, String)>(self.registries.dom())
    }

    /// A registry that a call may read: it has all the keys that the call names.
    pub open spec fn may_read(self, call: CallModel, registry: RegistryModel) -> bool {
        match call.keys {
            Some(keys) => forall|i: int|
                0 <= i < keys.len() ==> self.registries[registry].contains(#[trigger] keys[i]),
            None => true,
        }
    }

    /// The registries among the first `n` that a call may read.
    pub open spec fn readable(self, call: CallModel, n: int) -> Seq<RegistryModel>
        decreases n,
    {
        if n <= 0 {
            Seq::empty()
        } else if self.may_read(call, self.names()[n - 1]) {
            self.readable(call, n - 1).push(self.names()[n - 1])
        } else {
            self.readable(call, n - 1)
        }
    }

    pub open spec fn candidates(self, i: int) -> Seq<RegistryModel> {
        self.readable(self.calls[i].1, self.names().len() as int)
    }

    /// Where to ask about a call; nowhere where it can read no registry.
    pub open spec fn question(self, i: int) -> Option<(Path, (u32, u32))> {
        if self.candidates(i).len() == 0 {
            None
        } else {
            let file = self.calls[i].0;
            Some((file, position_at(self.sources[file], self.calls[i].1.offset)))
        }
    }

    /// The compiler says that a call is of a promised method.
    pub open spec fn is_proven(self, i: int, hover: Option<Text>) -> bool {
        match hover {
            Some(text) => exists|k: int|
                0 <= k < self.contracts.len() && (#[trigger] self.contracts[k]).1
                    == self.calls[i].1.method && holds_text(text, self.contracts[k].0)
                    && holds_text(text, "."@ + self.contracts[k].1),
            None => false,
        }
    }

    /// The compiler does not know what a call is of.
    pub open spec fn is_unresolved(self, hover: Option<Text>) -> bool {
        match hover {
            Some(text) => trimmed(text) == "any"@,
            None => true,
        }
    }

    pub open spec fn fact(self, i: int, registry: RegistryModel, proven: bool) -> FactModel {
        let (file, call) = self.calls[i];
        let at = location_at(self.sources[file], call.offset);
        FactModel {
            file,
            consumer: call.consumer,
            registry,
            keys: if proven {
                call.keys
            } else {
                None
            },
            line: at.line,
            column: at.column,
        }
    }

    /// What follows from the answer about one call.
    pub open spec fn facts_of(self, i: int, hover: Option<Text>) -> Seq<FactModel> {
        let proven = self.is_proven(i, hover);
        if proven || self.is_unresolved(hover) {
            self.candidates(i).map_values(|r: RegistryModel| self.fact(i, r, proven))
        } else {
            Seq::empty()
        }
    }

    pub open spec fn facts(self, hovers: Seq<Option<Text>>, n: int) -> Seq<FactModel>
        decreases n,
    {
        if n <= 0 {
            Seq::empty()
        } else {
            self.facts(hovers, n - 1) + self.facts_of(n - 1, hovers[n - 1])
        }
    }
}

/// A fact as a mathematical value.
#[verifier::ext_equal]
pub ghost struct FactModel {
    pub file: Path,
    pub consumer: Text,
    pub registry: RegistryModel,
    pub keys: Option<Seq<Text>>,
    pub line: usize,
    pub column: usize,
}

impl View for TypeScriptFact {
    type V = FactModel;

    open spec fn view(&self) -> FactModel {
        FactModel {
            file: self.file@,
            consumer: self.consumer@,
            registry: (self.registry_file@, self.registry_symbol@),
            keys: keys_view(self.keys),
            line: self.line,
            column: self.column,
        }
    }
}

pub open spec fn fact_models(list: Seq<TypeScriptFact>) -> Seq<FactModel> {
    list.map_values(|f: TypeScriptFact| f@)
}

pub open spec fn registry_models(list: Seq<TypeScriptRegistry>) -> Seq<RegistryModel> {
    list.map_values(|r: TypeScriptRegistry| (r.file@, r.symbol@))
}

pub open spec fn hover_views(list: Seq<Option<String>>) -> Seq<Option<Text>> {
    list.map_values(|h: Option<String>| h.model())
}

fn entry_keys(entries: &KeyMap<String, RegistryEntryInfo>) -> (r: KeySet<String>)
    ensures
        r@ == entries@.dom(),
{
    let ghost keys = entries.keys();
    let n = entries.len();
    let mut out: KeySet<String> = KeySet::new();
    let mut i: usize = 0;
    assert(out@ =~= keys.take(0).to_set());
    while i < n
        invariant
            i <= n,
            n == keys.len(),
            keys == entries.keys(),
            out@ == keys.take(i as int).to_set(),
        decreases n - i,
    {
        out.insert(entries.key_at(i).clone());
        proof {
            assert(keys.take(i + 1) =~= keys.take(i as int).push(keys[i as int]));
            crate::collections::push_to_set(keys.take(i as int), keys[i as int]);
        }
        i += 1;
    }
    assert(keys.take(n as int) =~= keys);
    out
}

fn add_registries(
    known: &mut KeyMap<(FilePath, String), KeySet<String>>,
    file: &FilePath,
    registries: &KeyMap<String, RegistryInfo>,
)
    ensures
        key_sets(final(known)@) == with_registries(
            key_sets(old(known)@),
            file@,
            registries@,
            registries.keys(),
            registries.keys().len() as int,
        ),
{
    let ghost start = key_sets(known@);
    let ghost names = registries.keys();
    let n = registries.len();
    let mut i: usize = 0;
    while i < n
        invariant
            i <= n,
            n == names.len(),
            names == registries.keys(),
            key_sets(known@) == with_registries(start, file@, registries@, names, i as int),
        decreases n - i,
    {
        let keys = entry_keys(&registries.value_at(i).entries);
        let ghost set = keys@;
        let ghost before = key_sets(known@);
        let key = (file.dup(), registries.key_at(i).clone());
        let ghost k = key.model();
        known.insert(key, keys);
        assert(key_sets(known@) =~= before.insert(k, set));
        i += 1;
    }
}

fn method_promised(contracts: &Vec<Contract>, method: &String) -> (r: bool)
    ensures
        r == is_promised(contract_models(contracts@), method@),
{
    let ghost all = contract_models(contracts@);
    let mut i: usize = 0;
    while i < contracts.len()
        invariant
            i <= contracts.len(),
            all == contract_models(contracts@),
            forall|k: int| 0 <= k < i ==> (#[trigger] all[k]).1 != method@,
        decreases contracts.len() - i,
    {
        assert(all[i as int].1 == contracts@[i as int].method@);
        if contracts[i].method == *method {
            return true;
        }
        i += 1;
    }
    false
}

/// Plans what to ask about some modules; nothing where no call can read a registry.
pub fn plan_questions(modules: Vec<ModuleInput>) -> (r: Option<TypeScriptPlan>)
    requires
        forall|i: int, k: int|
            0 <= i < modules@.len() && 0 <= k < modules@[i].calls@.len()
                ==> (#[trigger] modules@[i].calls@[k]).file@ == modules@[i].file@,
    ensures
        match r {
            Some(plan) => plan@ == planned(modules@) && !plan@.is_idle() && plan@.has_sources(),
            None => planned(modules@).is_idle(),
        },
{
    let ghost all = modules@;
    let mut plan = TypeScriptPlan {
        contracts: Vec::new(),
        calls: Vec::new(),
        registries: KeyMap::new(),
        sources: KeyMap::new(),
    };
    proof {
        assert(contract_models(plan.contracts@) =~= Seq::empty());
        assert(placed_calls(plan.calls@) =~= Seq::empty());
        assert(key_sets(plan.registries@) =~= Map::empty());
        assert(source_texts(plan.sources@) =~= Map::empty());
    }
    for module in it: modules
        invariant
            it.seq() == all,
            plan@ == with_modules(all, it.index() as int),
            plan@.has_sources(),
            forall|i: int, k: int|
                0 <= i < all.len() && 0 <= k < all[i].calls@.len()
                    ==> (#[trigger] all[i].calls@[k]).file@ == all[i].file@,
    {
        let ghost before = plan@;
        let ghost m = module;
        assert(m == all[it.index() as int]);
        let ModuleInput { file, source, registries, mut contracts, mut calls } = module;
        let ghost c = contract_models(contracts@);
        let ghost l = placed_calls(calls@);
        let ghost p = file@;
        let ghost t = source@;
        plan.contracts.append(&mut contracts);
        plan.calls.append(&mut calls);
        add_registries(&mut plan.registries, &file, &registries);
        plan.sources.insert(file, source);
        proof {
            assert(contract_models(plan.contracts@) =~= before.contracts + c);
            assert(placed_calls(plan.calls@) =~= before.calls + l);
            assert(source_texts(plan.sources@) =~= before.sources.insert(p, t));
            assert(plan@ =~= with_module(before, m));
            assert forall|i: int| 0 <= i < plan@.calls.len() implies plan@.sources.dom().contains(
                (#[trigger] plan@.calls[i]).0,
            ) by {
                if i < before.calls.len() {
                    assert(before.calls[i] == plan@.calls[i]);
                } else {
                    let k = i - before.calls.len();
                    assert(plan@.calls[i] == l[k]);
                    assert(m.calls@[k].file@ == p);
                }
            }
        }
    }
    let ghost whole = plan@;
    let TypeScriptPlan { contracts, calls, registries, sources } = plan;
    let mut kept: Vec<Callsite> = Vec::new();
    assert(placed_calls(kept@) =~= Seq::empty());
    let ghost listed = calls@;
    for call in it: calls
        invariant
            it.seq() == listed,
            whole.calls == placed_calls(listed),
            whole.contracts == contract_models(contracts@),
            whole.has_sources(),
            placed_calls(kept@) == promised_calls(whole, it.index() as int),
            forall|i: int|
                0 <= i < kept@.len() ==> whole.sources.dom().contains(
                    (#[trigger] placed_calls(kept@)[i]).0,
                ),
    {
        let ghost m = (call.file@, call.call());
        assert(whole.calls[it.index() as int] == m);
        if method_promised(&contracts, &call.method) {
            let ghost before = placed_calls(kept@);
            kept.push(call);
            assert(placed_calls(kept@) =~= before.push(m));
        }
    }
    let plan = TypeScriptPlan { contracts, calls: kept, registries, sources };
    let count = plan.registries.len();
    proof {
        assert(plan@ == planned(all));
        assert(placed_calls(plan.calls@).len() == plan.calls@.len());
        assert(key_sets(plan.registries@).dom() =~= plan.registries@.dom());
        if count == 0 {
            assert(plan@.registries.dom() =~= Set::empty());
        } else {
            assert(plan.registries.keys().to_set().contains(plan.registries.keys()[0]));
        }
    }
    if plan.calls.len() == 0 || count == 0 {
        return None;
    }
    Some(plan)
}

impl TypeScriptPlan {
    fn can_read(&self, call: &Callsite, keys: &KeySet<String>) -> (r: bool)
        ensures
            r == match call.call().keys {
                Some(list) => forall|i: int|
                    0 <= i < list.len() ==> keys@.contains(#[trigger] list[i]),
                None => true,
            },
    {
        match &call.keys {
            Some(list) => {
                let ghost all = texts_of(list@);
                let mut i: usize = 0;
                while i < list.len()
                    invariant
                        i <= list.len(),
                        all == texts_of(list@),
                        call.call().keys == Some(all),
                        forall|k: int| 0 <= k < i ==> keys@.contains(#[trigger] all[k]),
                    decreases list.len() - i,
                {
                    assert(all[i as int] == list@[i as int]@);
                    if !keys.contains(&list[i]) {
                        assert(call.call().keys->0[i as int] == all[i as int]);
                        assert(!keys@.contains(all[i as int]));
                        return false;
                    }
                    i += 1;
                }
                true
            },
            None => true,
        }
    }

    /// The registries that a call may read, by their places.
    fn list_candidates(&self, i: usize) -> (r: Vec<(FilePath, String)>)
        requires
            i < self.calls@.len(),
        ensures
            crate::order::models(r@) == self@.candidates(i as int),
    {
        let call = &self.calls[i];
        let ghost p = self@;
        let ghost m = call.call();
        let n = self.registries.len();
        let ghost names = self.registries.keys();
        proof {
            assert(p.registries.dom() =~= self.registries@.dom());
            ascending_list_is::<(FilePath, String)>(names, p.registries.dom());
            assert(p.calls[i as int] == (call.file@, m));
        }
        let mut out: Vec<(FilePath, String)> = Vec::new();
        let mut k: usize = 0;
        assert(crate::order::models(out@) =~= Seq::empty());
        while k < n
            invariant
                k <= n,
                n == names.len(),
                names == self.registries.keys(),
                p == self@,
                m == call.call(),
                names == p.names(),
                crate::order::models(out@) == p.readable(m, k as int),
            decreases n - k,
        {
            let keys = self.registries.value_at(k);
            let name = self.registries.key_at(k);
            assert(p.registries[names[k as int]] == keys@);
            if self.can_read(call, keys) {
                let copy = name.dup();
                let ghost c = copy.model();
                let ghost before = crate::order::models(out@);
                out.push(copy);
                assert(crate::order::models(out@) =~= before.push(c));
                assert(p.may_read(m, names[k as int]));
            } else {
                assert(!p.may_read(m, names[k as int]));
            }
            k += 1;
        }
        out
    }

    fn text_of(&self, i: usize) -> (r: SourceText)
        requires
            i < self.calls@.len(),
            self@.has_sources(),
        ensures
            r@ == self@.sources[self@.calls[i as int].0],
    {
        assert(self@.calls[i as int] == (self.calls@[i as int].file@, self.calls@[i as int].call()));
        match self.sources.get(&self.calls[i].file) {
            Some(text) => SourceText::new(text.as_str()),
            None => SourceText::new(""),
        }
    }

    /// Where to ask about a call.
    pub fn ask(&self, i: usize) -> (r: Option<(FilePath, u32, u32)>)
        requires
            i < self.calls@.len(),
            self@.has_sources(),
        ensures
            match r {
                Some((file, line, character)) => self@.question(i as int) == Some(
                    (file@, (line, character)),
                ),
                None => self@.question(i as int) is None,
            },
    {
        let found = self.list_candidates(i);
        assert(crate::order::models(found@).len() == found@.len());
        if found.len() == 0 {
            return None;
        }
        let text = self.text_of(i);
        let (line, character) = text.position(self.calls[i].offset);
        assert(self@.calls[i as int] == (self.calls@[i as int].file@, self.calls@[i as int].call()));
        Some((self.calls[i].file.dup(), line, character))
    }

    fn proven(&self, i: usize, hover: &Option<String>) -> (r: bool)
        requires
            i < self.calls@.len(),
        ensures
            r == self@.is_proven(i as int, hover.model()),
    {
        let ghost p = self@;
        assert(p.calls[i as int] == (self.calls@[i as int].file@, self.calls@[i as int].call()));
        match hover {
            Some(text) => {
                let mut k: usize = 0;
                while k < self.contracts.len()
                    invariant
                        k <= self.contracts.len(),
                        i < self.calls@.len(),
                        hover.model() == Some(text@),
                        p == self@,
                        p.calls[i as int] == (
                            self.calls@[i as int].file@,
                            self.calls@[i as int].call(),
                        ),
                        forall|j: int|
                            0 <= j < k ==> !((#[trigger] p.contracts[j]).1 == p.calls[i as int].1.method
                                && holds_text(text@, p.contracts[j].0) && holds_text(
                                text@,
                                "."@ + p.contracts[j].1,
                            )),
                    decreases self.contracts.len() - k,
                {
                    let c = &self.contracts[k];
                    assert(p.contracts[k as int] == (c.owner@, c.method@));
                    if c.method == self.calls[i].method && contains_text(
                        text.as_str(),
                        c.owner.as_str(),
                    ) && contains_text(text.as_str(), join2(".", c.method.as_str()).as_str()) {
                        return true;
                    }
                    k += 1;
                }
                false
            },
            None => false,
        }
    }

    /// What follows from the answers, one for each call; nothing where nothing does.
    pub fn conclude(&self, hovers: &Vec<Option<String>>) -> (r: Option<TypeScriptFacts>)
        requires
            hovers@.len() == self.calls@.len(),
            self@.has_sources(),
        ensures
            ({
                let facts = self@.facts(hover_views(hovers@), self.calls@.len() as int);
                match r {
                    Some(found) => facts.len() > 0 && fact_models(found.facts@) == facts
                        && registry_models(found.indexed_registries@) == self@.names(),
                    None => facts.len() == 0,
                }
            }),
    {
        let ghost p = self@;
        let ghost answers = hover_views(hovers@);
        let mut facts: Vec<TypeScriptFact> = Vec::new();
        let mut i: usize = 0;
        assert(fact_models(facts@) =~= Seq::empty());
        while i < self.calls.len()
            invariant
                i <= self.calls.len(),
                hovers@.len() == self.calls@.len(),
                p == self@,
                p.has_sources(),
                answers == hover_views(hovers@),
                fact_models(facts@) == p.facts(answers, i as int),
            decreases self.calls.len() - i,
        {
            let found = self.list_candidates(i);
            let proven = self.proven(i, &hovers[i]);
            let unresolved = match &hovers[i] {
                Some(text) => same(trim(text.as_str()).as_str(), "any"),
                None => true,
            };
            let ghost h = answers[i as int];
            assert(h == hovers@[i as int].model());
            if proven || unresolved {
                self.add_facts(i, &found, proven, &mut facts);
            }
            proof {
                let more = p.facts_of(i as int, h);
                assert(fact_models(facts@) =~= p.facts(answers, i as int) + more);
            }
            i += 1;
        }
        assert(fact_models(facts@).len() == facts@.len());
        if facts.len() == 0 {
            return None;
        }
        Some(TypeScriptFacts { indexed_registries: self.list_registries(), facts })
    }

    fn add_facts(
        &self,
        i: usize,
        found: &Vec<(FilePath, String)>,
        proven: bool,
        facts: &mut Vec<TypeScriptFact>,
    )
        requires
            i < self.calls@.len(),
            self@.has_sources(),
        ensures
            fact_models(final(facts)@) == fact_models(old(facts)@) + crate::order::models(
                found@,
            ).map_values(|r: RegistryModel| self@.fact(i as int, r, proven)),
    {
        let ghost p = self@;
        let call = &self.calls[i];
        let text = self.text_of(i);
        let at = text.location(call.offset);
        let ghost start = fact_models(facts@);
        let ghost listed = crate::order::models(found@);
        let ghost all = listed.map_values(|r: RegistryModel| p.fact(i as int, r, proven));
        assert(p.calls[i as int] == (call.file@, call.call()));
        let mut k: usize = 0;
        assert(fact_models(facts@) =~= start + all.take(0));
        while k < found.len()
            invariant
                k <= found.len(),
                p == self@,
                p.calls[i as int] == (call.file@, call.call()),
                at == location_at(p.sources[call.file@], call.offset as int),
                listed == crate::order::models(found@),
                all == listed.map_values(|r: RegistryModel| p.fact(i as int, r, proven)),
                fact_models(facts@) == start + all.take(k as int),
            decreases found.len() - k,
        {
            let keys: Option<Vec<String>> = match &call.keys {
                Some(list) => if proven {
                    Some(crate::analysis::seeds::copy_texts(list))
                } else {
                    None
                },
                None => None,
            };
            let fact = TypeScriptFact {
                file: call.file.dup(),
                consumer: call.consumer.clone(),
                registry_file: found[k].0.dup(),
                registry_symbol: found[k].1.clone(),
                keys,
                line: at.line,
                column: at.column,
            };
            let ghost v = fact@;
            let ghost before = fact_models(facts@);
            facts.push(fact);
            proof {
                assert(listed[k as int] == found@[k as int].model());
                assert(v == p.fact(i as int, listed[k as int], proven));
                assert(all[k as int] == v);
                assert(fact_models(facts@) =~= before.push(v));
                assert(fact_models(facts@) =~= start + all.take(k + 1));
            }
            k += 1;
        }
        assert(all.take(k as int) =~= all);
    }

    fn list_registries(&self) -> (r: Vec<TypeScriptRegistry>)
        ensures
            registry_models(r@) == self@.names(),
    {
        let n = self.registries.len();
        let ghost names = self.registries.keys();
        proof {
            assert(self@.registries.dom() =~= self.registries@.dom());
            ascending_list_is::<(FilePath, String)>(names, self@.registries.dom());
        }
        let mut out: Vec<TypeScriptRegistry> = Vec::new();
        let mut i: usize = 0;
        while i < n
            invariant
                i <= n,
                n == names.len(),
                names == self.registries.keys(),
                registry_models(out@) =~= names.take(i as int),
            decreases n - i,
        {
            let key = self.registries.key_at(i);
            let item = TypeScriptRegistry { file: key.0.dup(), symbol: key.1.clone() };
            let ghost v = (item.file@, item.symbol@);
            let ghost before = registry_models(out@);
            out.push(item);
            assert(registry_models(out@) =~= before.push(v));
            i += 1;
        }
        assert(names.take(n as int) =~= names);
        out
    }
}

/// A module as it was read.
pub open spec fn is_read(file: (FilePath, String), m: ModuleInput) -> bool {
    &&& m.file@ == file.0@
    &&& m.source@ == file.1@
    &&& exists|p: ParsedModule| #[trigger]
        parsed(file.0@, file.1@, Ok(p)) && m.registries == p.registries
    &&& are_candidates(shown(file.0@), file.1@, m.contracts@, m.calls@)
}

pub open spec fn are_read(files: Seq<(FilePath, String)>, modules: Seq<ModuleInput>) -> bool {
    forall|i: int| 0 <= i < modules.len() ==> is_read(files[i], #[trigger] modules[i])
}

/// Reads some modules and plans what to ask about them. The first that cannot be parsed is an
/// error.
pub fn prepare(files: &Vec<(FilePath, String)>) -> (r: Result<Option<TypeScriptPlan>, ParseError>)
    ensures
        match r {
            Ok(plan) => exists|modules: Seq<ModuleInput>| #[trigger]
                are_read(files@, modules) && modules.len() == files@.len() && match plan {
                    Some(p) => p@ == planned(modules) && !p@.is_idle() && p@.has_sources(),
                    None => planned(modules).is_idle(),
                },
            Err(fault) => exists|modules: Seq<ModuleInput>| #[trigger]
                are_read(files@, modules) && modules.len() < files@.len() && parsed(
                    files@[modules.len() as int].0@,
                    files@[modules.len() as int].1@,
                    Err(fault),
                ),
        },
{
    let mut modules: Vec<ModuleInput> = Vec::new();
    let mut i: usize = 0;
    while i < files.len()
        invariant
            i <= files.len(),
            modules.len() == i,
            are_read(files@, modules@),
            forall|a: int, k: int|
                0 <= a < modules@.len() && 0 <= k < modules@[a].calls@.len()
                    ==> (#[trigger] modules@[a].calls@[k]).file@ == modules@[a].file@,
        decreases files.len() - i,
    {
        let file = &files[i].0;
        let source = files[i].1.as_str();
        let module = match parse_module(file, source) {
            Ok(module) => module,
            Err(fault) => {
                assert(are_read(files@, modules@) && modules@.len() == i);
                return Err(fault);
            },
        };
        let (contracts, calls) = collect_candidates(file, source);
        let item = ModuleInput {
            file: file.dup(),
            source: source.to_owned(),
            registries: module.registries,
            contracts,
            calls,
        };
        assert(is_read(files@[i as int], item)) by {
            assert(parsed(file@, source@, Ok(module)));
        }
        modules.push(item);
        i += 1;
    }
    assert(are_read(files@, modules@));
    Ok(plan_questions(modules))
}

} // verus!
