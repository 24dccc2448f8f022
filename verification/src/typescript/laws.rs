//! What holds of every plan of questions and of what follows from the answers.
use vstd::prelude::*;

use crate::collections::ascending_list_fits;
use crate::parser::source::location_at;
use crate::parser::syntax::ModuleSyntax;
use crate::path::FilePath;
use crate::query::command::holds_text;
use crate::text::trimmed;
use crate::typescript::candidates::{ArgumentModel, CallModel};
use crate::typescript::plan::{promised_calls, FactModel, PlanModel, RegistryModel};
use crate::workspace::owner::Path;

verus! {

pub type Text = Seq<char>;

/// A registry that a call may read: one that has all the keys that the call names; any where the
/// call names none.
pub open spec fn can_read(p: PlanModel, call: CallModel, r: RegistryModel) -> bool {
    &&& p.registries.dom().contains(r)
    &&& call.keys matches Some(keys) ==> forall|i: int|
        0 <= i < keys.len() ==> p.registries[r].contains(#[trigger] keys[i])
}

proof fn readable_can_be_read(p: PlanModel, call: CallModel, n: int, r: RegistryModel)
    requires
        0 <= n <= p.names().len(),
    ensures
        p.readable(call, n).contains(r) == (p.names().take(n).contains(r) && p.may_read(call, r)),
    decreases n,
{
    let list = p.readable(call, n);
    if n > 0 {
        readable_can_be_read(p, call, n - 1, r);
        let before = p.readable(call, n - 1);
        let front = p.names().take(n - 1);
        let whole = p.names().take(n);
        if before.contains(r) {
            let k = choose|k: int| 0 <= k < before.len() && before[k] == r;
            assert(list[k] == r);
        }
        if list.contains(r) && !before.contains(r) {
            let k = choose|k: int| 0 <= k < list.len() && list[k] == r;
            assert(k == before.len());
            assert(whole[n - 1] == r);
        }
        if front.contains(r) {
            let k = choose|k: int| 0 <= k < front.len() && front[k] == r;
            assert(whole[k] == r);
        }
        if whole.contains(r) && !front.contains(r) {
            let k = choose|k: int| 0 <= k < whole.len() && whole[k] == r;
            if k < n - 1 {
                assert(front[k] == r);
            }
            if p.may_read(call, r) {
                assert(list[before.len() as int] == r);
            }
        }
    }
}

/// The candidates of a call are the registries that it may read.
pub proof fn calls_may_read_what_has_their_keys(p: PlanModel, i: int, r: RegistryModel)
    requires
        p.registries.dom().finite(),
        0 <= i < p.calls.len(),
    ensures
        p.candidates(i).contains(r) <==> can_read(p, p.calls[i].1, r),
        p.question(i) is Some <==> exists|x: RegistryModel| #[trigger] can_read(p, p.calls[i].1, x),
{
    let call = p.calls[i].1;
    let n = p.names().len() as int;
    ascending_list_fits::<(FilePath, String)>(p.registries.dom());
    assert(p.names().take(n) =~= p.names());
    assert forall|x: RegistryModel| #[trigger] p.candidates(i).contains(x) == can_read(p, call, x) by {
        readable_can_be_read(p, call, n, x);
        assert(p.names().contains(x) == p.names().to_set().contains(x));
    }
    if p.candidates(i).len() > 0 {
        assert(p.candidates(i).contains(p.candidates(i)[0]));
        assert(can_read(p, call, p.candidates(i)[0]));
    }
    if exists|x: RegistryModel| #[trigger] can_read(p, call, x) {
        let x = choose|x: RegistryModel| #[trigger] can_read(p, call, x);
        assert(p.candidates(i).contains(x));
    }
}

/// The answer says that a call is of a promised method: it holds the name of the declaration and,
/// behind a dot, that of the method.
pub open spec fn says_promised(p: PlanModel, i: int, text: Text) -> bool {
    exists|k: int|
        {
            &&& 0 <= k < p.contracts.len()
            &&& (#[trigger] p.contracts[k]).1 == p.calls[i].1.method
            &&& holds_text(text, p.contracts[k].0)
            &&& holds_text(text, "."@ + p.contracts[k].1)
        }
}

/// The fact that follows from the answer about call `i` for a registry: where the call is proven
/// to be of a promised method it reads the keys that it names; where the compiler knows nothing
/// of it, it may read any.
pub open spec fn follows(
    p: PlanModel,
    hovers: Seq<Option<Text>>,
    i: int,
    r: RegistryModel,
    f: FactModel,
) -> bool {
    let (file, call) = p.calls[i];
    let at = location_at(p.sources[file], call.offset);
    &&& 0 <= i < p.calls.len()
    &&& can_read(p, call, r)
    &&& f.file == file
    &&& f.consumer == call.consumer
    &&& f.registry == r
    &&& f.line == at.line
    &&& f.column == at.column
    &&& match hovers[i] {
        Some(text) => if says_promised(p, i, text) {
            f.keys == call.keys
        } else {
            trimmed(text) == "any"@ && f.keys is None
        },
        None => f.keys is None,
    }
}

/// The facts are those that follow from the answers, and no others.
pub proof fn facts_follow_from_answers(
    p: PlanModel,
    hovers: Seq<Option<Text>>,
    n: int,
    f: FactModel,
)
    requires
        p.registries.dom().finite(),
        0 <= n <= p.calls.len(),
    ensures
        p.facts(hovers, n).contains(f) <==> exists|i: int, r: RegistryModel| #[trigger]
            follows(p, hovers, i, r, f) && i < n,
    decreases n,
{
    if n > 0 {
        facts_follow_from_answers(p, hovers, n - 1, f);
        let before = p.facts(hovers, n - 1);
        let more = p.facts_of(n - 1, hovers[n - 1]);
        let all = p.facts(hovers, n);
        let list = p.candidates(n - 1);
        let proven = p.is_proven(n - 1, hovers[n - 1]);
        assert(proven == (hovers[n - 1] is Some && says_promised(p, n - 1, hovers[n - 1]->0)));
        if before.contains(f) {
            let k = choose|k: int| 0 <= k < before.len() && before[k] == f;
            assert(all[k] == f);
            let (i, r) = choose|i: int, r: RegistryModel| #[trigger]
                follows(p, hovers, i, r, f) && i < n - 1;
            assert(follows(p, hovers, i, r, f) && i < n);
        }
        if more.contains(f) {
            let k = choose|k: int| 0 <= k < more.len() && more[k] == f;
            assert(all[before.len() + k] == f);
            calls_may_read_what_has_their_keys(p, n - 1, list[k]);
            assert(list.contains(list[k]));
            assert(follows(p, hovers, n - 1, list[k], f));
        }
        if all.contains(f) {
            let k = choose|k: int| 0 <= k < all.len() && all[k] == f;
            if k < before.len() {
                assert(before[k] == f);
            } else {
                assert(more[k - before.len()] == f);
            }
        }
        if exists|i: int, r: RegistryModel| #[trigger] follows(p, hovers, i, r, f) && i < n {
            let (i, r) = choose|i: int, r: RegistryModel| #[trigger]
                follows(p, hovers, i, r, f) && i < n;
            if i < n - 1 {
                assert(follows(p, hovers, i, r, f) && i < n - 1);
            } else {
                calls_may_read_what_has_their_keys(p, i, r);
                let k = choose|k: int| 0 <= k < list.len() && list[k] == r;
                assert(more[k] == p.fact(i, r, proven));
                assert(more[k] == f);
                assert(more.contains(f));
            }
        }
    }
}

/// Only calls whose method some declaration of the modules promises are asked about.
pub proof fn only_promised_calls_are_asked_about(p: PlanModel, n: int, call: (Path, CallModel))
    requires
        0 <= n <= p.calls.len(),
    ensures
        promised_calls(p, n).contains(call) <==> p.calls.take(n).contains(call) && exists|k: int|
            0 <= k < p.contracts.len() && (#[trigger] p.contracts[k]).1 == call.1.method,
    decreases n,
{
    let list = promised_calls(p, n);
    if n > 0 {
        only_promised_calls_are_asked_about(p, n - 1, call);
        let before = promised_calls(p, n - 1);
        let front = p.calls.take(n - 1);
        let whole = p.calls.take(n);
        if before.contains(call) {
            let k = choose|k: int| 0 <= k < before.len() && before[k] == call;
            assert(list[k] == call);
        }
        if list.contains(call) && !before.contains(call) {
            let k = choose|k: int| 0 <= k < list.len() && list[k] == call;
            assert(k == before.len());
            assert(whole[n - 1] == call);
        }
        if front.contains(call) {
            let k = choose|k: int| 0 <= k < front.len() && front[k] == call;
            assert(whole[k] == call);
        }
        if whole.contains(call) && !front.contains(call) {
            let k = choose|k: int| 0 <= k < whole.len() && whole[k] == call;
            if k < n - 1 {
                assert(front[k] == call);
            }
            if crate::typescript::plan::is_promised(p.contracts, call.1.method) {
                assert(list[before.len() as int] == call);
            }
        }
    }
}

/// The declaration `k` of the module encloses a place: it is in the scope of the whole module, a
/// value where only values count, and covers the bytes.
pub open spec fn is_enclosing(s: ModuleSyntax, k: int, start: usize, end: usize, values: bool) -> bool {
    &&& 0 <= k < s.symbols@.len()
    &&& s.symbols@[k].scope == s.root_scope
    &&& values ==> s.symbols@[k].is_value
    &&& s.symbols@[k].start <= start
    &&& end <= s.symbols@[k].end
}

/// How many bytes a declaration covers.
pub open spec fn size_of(s: ModuleSyntax, k: int) -> int {
    if s.symbols@[k].start <= s.symbols@[k].end {
        s.symbols@[k].end - s.symbols@[k].start
    } else {
        0
    }
}

proof fn smallest_is_smallest(s: ModuleSyntax, start: usize, end: usize, values: bool, n: int)
    requires
        0 <= n <= s.symbols@.len(),
    ensures
        match s.smallest_around(start, end, values, n) {
            Some(k) => {
                &&& k < n
                &&& is_enclosing(s, k, start, end, values)
                &&& forall|j: int| #[trigger]
                    is_enclosing(s, j, start, end, values) && j < n ==> size_of(s, k) <= size_of(s, j)
            },
            None => forall|j: int| j < n ==> !#[trigger] is_enclosing(s, j, start, end, values),
        },
    decreases n,
{
    if n > 0 {
        smallest_is_smallest(s, start, end, values, n - 1);
        assert(s.encloses(n - 1, start, end, values) == is_enclosing(s, n - 1, start, end, values));
    }
}

/// What a place belongs to is the smallest declaration of the module around it.
pub proof fn places_belong_to_the_smallest_declaration(
    s: ModuleSyntax,
    start: usize,
    end: usize,
    values: bool,
)
    ensures
        match s.enclosing_symbol(start, end, values) {
            Some(name) => exists|k: int|
                {
                    &&& #[trigger] is_enclosing(s, k, start, end, values)
                    &&& s.symbols@[k].name@ == name
                    &&& forall|j: int| #[trigger]
                        is_enclosing(s, j, start, end, values) ==> size_of(s, k) <= size_of(s, j)
                },
            None => forall|j: int| !#[trigger] is_enclosing(s, j, start, end, values),
        },
{
    let n = s.symbols@.len() as int;
    smallest_is_smallest(s, start, end, values, n);
    if let Some(k) = s.smallest_around(start, end, values, n) {
        assert(is_enclosing(s, k, start, end, values));
    }
}

/// A call names the key that is its first argument, as a text or as a template without
/// expressions. One with an object reads no key, and any other may read each.
pub proof fn calls_name_literal_keys(s: ModuleSyntax, text: Text, n: usize)
    ensures
        s.keys_of(ArgumentModel::Text(text)) == Some(Some(seq![text])),
        s.keys_of(ArgumentModel::Template(0, Some(text))) == Some(Some(seq![text])),
        n > 0 ==> s.keys_of(ArgumentModel::Template(n, Some(text))) == Some(None::<Seq<Text>>),
        s.keys_of(ArgumentModel::Object) is None,
        s.keys_of(ArgumentModel::Other) == Some(None::<Seq<Text>>),
{
}

} // verus!
