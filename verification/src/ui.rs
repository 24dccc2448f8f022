//! The interactive view of the paths from a change to a target.
use vstd::prelude::*;

use crate::order::Key;
use crate::text::{decimal, decimal_text, join2, same, starts_with};
use crate::words::texts_of;

verus! {

pub type Text = Seq<char>;

/// What the view shows.
pub struct WhyUiModel {
    pub package: String,
    pub base: String,
    pub paths: Vec<Vec<WhyUiItem>>,
    pub cycles: Vec<Vec<String>>,
}

pub struct WhyUiItem {
    pub label: String,
    pub detail: String,
}

/// A key that was pressed.
#[derive(Clone, Copy, Debug, PartialEq, Eq, Structural)]
pub enum KeyPress {
    Char(char),
    Esc,
    Down,
    Up,
    Left,
    Right,
    Home,
    End,
    Other,
}

/// The path that is shown and the step of it that is selected.
#[derive(Clone, Copy, Debug, PartialEq, Eq, Structural)]
pub struct Selection {
    pub path: usize,
    pub step: usize,
}

pub open spec fn smaller(a: int, b: int) -> int {
    if a <= b {
        a
    } else {
        b
    }
}

impl WhyUiModel {
    /// There is something to show: a path, and no path without a step.
    pub open spec fn is_showable(self) -> bool {
        &&& self.paths@.len() > 0
        &&& forall|i: int| 0 <= i < self.paths@.len() ==> (#[trigger] self.paths@[i])@.len() > 0
    }

    pub fn can_be_shown(&self) -> (r: bool)
        ensures
            r == self.is_showable(),
    {
        if self.paths.len() == 0 {
            return false;
        }
        let mut i: usize = 0;
        while i < self.paths.len()
            invariant
                i <= self.paths.len(),
                self.paths@.len() > 0,
                forall|k: int| 0 <= k < i ==> (#[trigger] self.paths@[k])@.len() > 0,
            decreases self.paths.len() - i,
        {
            if self.paths[i].len() == 0 {
                assert(self.paths@[i as int]@.len() == 0);
                return false;
            }
            i += 1;
        }
        true
    }

    /// A step of a path is selected.
    pub open spec fn shows(self, s: Selection) -> bool {
        s.path < self.paths@.len() && s.step < self.paths@[s.path as int]@.len()
    }

    /// What is selected after a key was pressed; nothing where the view is left.
    pub open spec fn pressed(self, s: Selection, key: KeyPress) -> Option<Selection> {
        let last = self.paths@[s.path as int]@.len() - 1;
        match key {
            KeyPress::Esc | KeyPress::Char('q') => None,
            KeyPress::Down | KeyPress::Char('j') => Some(
                Selection { step: smaller(s.step + 1, last) as usize, ..s },
            ),
            KeyPress::Up | KeyPress::Char('k') => Some(
                Selection {
                    step: if s.step > 0 {
                        (s.step - 1) as usize
                    } else {
                        0
                    },
                    ..s
                },
            ),
            KeyPress::Home | KeyPress::Char('g') => Some(Selection { step: 0, ..s }),
            KeyPress::End | KeyPress::Char('G') => Some(Selection { step: last as usize, ..s }),
            KeyPress::Right | KeyPress::Char('l') => Some(
                Selection {
                    path: smaller(s.path + 1, self.paths@.len() - 1) as usize,
                    step: 0,
                },
            ),
            KeyPress::Left | KeyPress::Char('h') => Some(
                Selection {
                    path: if s.path > 0 {
                        (s.path - 1) as usize
                    } else {
                        0
                    },
                    step: 0,
                },
            ),
            _ => Some(s),
        }
    }

    /// Takes in a key; the selection stays on a step of a path.
    pub fn press(&self, s: Selection, key: KeyPress) -> (r: Option<Selection>)
        requires
            self.is_showable(),
            self.shows(s),
        ensures
            r == self.pressed(s, key),
            r is Some ==> self.shows(r->0),
    {
        let last = self.paths[s.path].len() - 1;
        match key {
            KeyPress::Esc | KeyPress::Char('q') => None,
            KeyPress::Down | KeyPress::Char('j') => Some(
                Selection {
                    step: if s.step < last {
                        s.step + 1
                    } else {
                        last
                    },
                    ..s
                },
            ),
            KeyPress::Up | KeyPress::Char('k') => Some(
                Selection {
                    step: if s.step > 0 {
                        s.step - 1
                    } else {
                        0
                    },
                    ..s
                },
            ),
            KeyPress::Home | KeyPress::Char('g') => Some(Selection { step: 0, ..s }),
            KeyPress::End | KeyPress::Char('G') => Some(Selection { step: last, ..s }),
            KeyPress::Right | KeyPress::Char('l') => Some(
                Selection {
                    path: if s.path < self.paths.len() - 1 {
                        s.path + 1
                    } else {
                        self.paths.len() - 1
                    },
                    step: 0,
                },
            ),
            KeyPress::Left | KeyPress::Char('h') => Some(
                Selection {
                    path: if s.path > 0 {
                        s.path - 1
                    } else {
                        0
                    },
                    step: 0,
                },
            ),
            _ => Some(s),
        }
    }
}

/// The sign in front of a step: the change, the target, or a step between them.
pub open spec fn step_sign(index: int, count: int) -> Text {
    if index == 0 {
        "\u{25cf} "@
    } else if index + 1 == count {
        "\u{25c6} "@
    } else {
        "\u{2193} "@
    }
}

/// A step of a path as it is listed.
pub fn list_step(path: &Vec<WhyUiItem>, index: usize) -> (r: String)
    requires
        index < path.len(),
    ensures
        r@ == step_sign(index as int, path@.len() as int) + path@[index as int].label@,
{
    let sign = if index == 0 {
        "\u{25cf} "
    } else if index + 1 == path.len() {
        "\u{25c6} "
    } else {
        "\u{2193} "
    };
    join2(sign, path[index].label.as_str())
}

/// Which path of how many is shown.
pub open spec fn position_text(path: int, count: int) -> Text {
    "  path "@ + decimal((path + 1) as nat) + "/"@ + decimal(count as nat)
}

pub fn write_position(path: usize, count: usize) -> (r: String)
    requires
        path < count,
    ensures
        r@ == position_text(path as int, count as int),
{
    let mut out = "  path ".to_owned();
    out.append(decimal_text(path + 1).as_str());
    out.append("/");
    out.append(decimal_text(count).as_str());
    out
}

/// A step is about a file of a cycle: its label is that file or a symbol in it.
pub open spec fn is_about(label: Text, member: Text) -> bool {
    label == member || (member + "#"@).is_prefix_of(label)
}

pub open spec fn enters(label: Text, cycle: Seq<Text>) -> bool {
    exists|i: int| 0 <= i < cycle.len() && is_about(label, #[trigger] cycle[i])
}

/// The cycles among the first `n` that a step enters.
pub open spec fn entered(label: Text, cycles: Seq<Vec<String>>, n: int) -> Seq<int>
    decreases n,
{
    if n <= 0 {
        Seq::empty()
    } else if enters(label, texts_of(cycles[n - 1]@)) {
        entered(label, cycles, n - 1).push(n - 1)
    } else {
        entered(label, cycles, n - 1)
    }
}

fn does_enter(label: &str, cycle: &Vec<String>) -> (r: bool)
    ensures
        r == enters(label@, texts_of(cycle@)),
{
    let ghost all = texts_of(cycle@);
    let mut i: usize = 0;
    while i < cycle.len()
        invariant
            i <= cycle.len(),
            all == texts_of(cycle@),
            forall|k: int| 0 <= k < i ==> !is_about(label@, #[trigger] all[k]),
        decreases cycle.len() - i,
    {
        assert(all[i as int] == cycle@[i as int]@);
        if same(label, cycle[i].as_str()) || starts_with(
            label,
            join2(cycle[i].as_str(), "#").as_str(),
        ) {
            return true;
        }
        i += 1;
    }
    false
}

pub open spec fn as_ints(list: Seq<usize>) -> Seq<int> {
    list.map_values(|i: usize| i as int)
}

/// The cycles that a step enters.
pub fn cycles_entered(model: &WhyUiModel, item: &WhyUiItem) -> (r: Vec<usize>)
    ensures
        as_ints(r@) == entered(item.label@, model.cycles@, model.cycles@.len() as int),
{
    let mut out: Vec<usize> = Vec::new();
    let mut i: usize = 0;
    assert(as_ints(out@) =~= Seq::empty());
    while i < model.cycles.len()
        invariant
            i <= model.cycles.len(),
            as_ints(out@) == entered(item.label@, model.cycles@, i as int),
        decreases model.cycles.len() - i,
    {
        if does_enter(item.label.as_str(), &model.cycles[i]) {
            let ghost before = as_ints(out@);
            out.push(i);
            assert(as_ints(out@) =~= before.push(i as int));
        }
        i += 1;
    }
    out
}

/// A key moves the selection by one step, up to the ends of the path; `q` and Escape leave.
pub proof fn keys_move_by_one_step(model: WhyUiModel, s: Selection)
    requires
        model.is_showable(),
        model.shows(s),
    ensures
        model.pressed(s, KeyPress::Esc) is None,
        model.pressed(s, KeyPress::Char('q')) is None,
        s.step + 1 < model.paths@[s.path as int]@.len() ==> model.pressed(s, KeyPress::Down) == Some(
            Selection { path: s.path, step: (s.step + 1) as usize },
        ),
        s.step + 1 == model.paths@[s.path as int]@.len() ==> model.pressed(s, KeyPress::Down) == Some(s),
        s.step > 0 ==> model.pressed(s, KeyPress::Up) == Some(
            Selection { path: s.path, step: (s.step - 1) as usize },
        ),
        s.step == 0 ==> model.pressed(s, KeyPress::Up) == Some(s),
        model.pressed(s, KeyPress::Home) == Some(Selection { path: s.path, step: 0 }),
        model.pressed(s, KeyPress::End) == Some(
            Selection { path: s.path, step: (model.paths@[s.path as int]@.len() - 1) as usize },
        ),
        s.path + 1 < model.paths@.len() ==> model.pressed(s, KeyPress::Right) == Some(
            Selection { path: (s.path + 1) as usize, step: 0 },
        ),
        s.path + 1 == model.paths@.len() ==> model.pressed(s, KeyPress::Right) == Some(
            Selection { path: s.path, step: 0 },
        ),
        s.path > 0 ==> model.pressed(s, KeyPress::Left) == Some(
            Selection { path: (s.path - 1) as usize, step: 0 },
        ),
        s.path == 0 ==> model.pressed(s, KeyPress::Left) == Some(Selection { path: 0, step: 0 }),
        model.pressed(s, KeyPress::Char('j')) == model.pressed(s, KeyPress::Down),
        model.pressed(s, KeyPress::Char('k')) == model.pressed(s, KeyPress::Up),
        model.pressed(s, KeyPress::Char('g')) == model.pressed(s, KeyPress::Home),
        model.pressed(s, KeyPress::Char('G')) == model.pressed(s, KeyPress::End),
        model.pressed(s, KeyPress::Char('l')) == model.pressed(s, KeyPress::Right),
        model.pressed(s, KeyPress::Char('h')) == model.pressed(s, KeyPress::Left),
        model.pressed(s, KeyPress::Other) == Some(s),
{
}

/// A step enters exactly the cycles that hold its file: the label is the file, or the file with a
/// symbol behind a hash.
pub proof fn steps_enter_the_cycles_of_their_file(
    label: Text,
    cycles: Seq<Vec<String>>,
    n: int,
    i: int,
)
    requires
        0 <= n <= cycles.len(),
    ensures
        entered(label, cycles, n).contains(i) <==> 0 <= i < n && exists|k: int|
            0 <= k < cycles[i]@.len() && (label == (#[trigger] cycles[i]@[k])@ || (cycles[i]@[k]@
                + "#"@).is_prefix_of(label)),
    decreases n,
{
    if n > 0 {
        steps_enter_the_cycles_of_their_file(label, cycles, n - 1, i);
        let before = entered(label, cycles, n - 1);
        let all = entered(label, cycles, n);
        let last = texts_of(cycles[n - 1]@);
        assert(enters(label, last) == exists|k: int|
            0 <= k < cycles[n - 1]@.len() && (label == (#[trigger] cycles[n - 1]@[k])@ || (
            cycles[n - 1]@[k]@ + "#"@).is_prefix_of(label))) by {
            if enters(label, last) {
                let k = choose|k: int| 0 <= k < last.len() && is_about(label, #[trigger] last[k]);
                assert(last[k] == cycles[n - 1]@[k]@);
            }
            if exists|k: int|
                0 <= k < cycles[n - 1]@.len() && (label == (#[trigger] cycles[n - 1]@[k])@ || (
                cycles[n - 1]@[k]@ + "#"@).is_prefix_of(label)) {
                let k = choose|k: int|
                    0 <= k < cycles[n - 1]@.len() && (label == (#[trigger] cycles[n - 1]@[k])@ || (
                    cycles[n - 1]@[k]@ + "#"@).is_prefix_of(label));
                assert(last[k] == cycles[n - 1]@[k]@);
                assert(is_about(label, last[k]));
            }
        }
        if before.contains(i) {
            let k = choose|k: int| 0 <= k < before.len() && before[k] == i;
            assert(all[k] == i);
        }
        if all.contains(i) && !before.contains(i) {
            let k = choose|k: int| 0 <= k < all.len() && all[k] == i;
            assert(k == before.len());
        }
        if enters(label, last) && i == n - 1 {
            assert(all[before.len() as int] == i);
        }
    }
}

} // verus!
