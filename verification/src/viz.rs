//! The page that shows a dependency graph.
use vstd::prelude::*;

use crate::order::{chars_of, Key};
use crate::words::texts_of;

verus! {

pub type Text = Seq<char>;

/// The graph that a page shows.
pub struct GraphView {
    pub package: Option<String>,
    pub base: String,
    pub task: String,
    pub scope: String,
    pub nodes: Vec<GraphNode>,
    pub links: Vec<GraphLink>,
}

pub struct GraphNode {
    pub id: usize,
    pub label: String,
    pub file: String,
    pub symbol: String,
    pub package: String,
    pub kind: NodeKind,
    pub details: Vec<String>,
    pub paths: Vec<Vec<usize>>,
}

/// What a node is to the changes.
#[derive(Clone, Copy, Debug, PartialEq, Eq, Structural)]
pub enum NodeKind {
    Seed,
    Affected,
    Dependency,
    Target,
    Normal,
}

pub struct GraphLink {
    pub source: usize,
    pub target: usize,
    pub type_only: bool,
    pub detail: String,
    pub location: Option<String>,
}

/// A node of a page as a mathematical value.
#[verifier::ext_equal]
pub ghost struct NodeView {
    pub id: int,
    pub label: Text,
    pub file: Text,
    pub symbol: Text,
    pub package: Text,
    pub kind: NodeKind,
    pub details: Seq<Text>,
    pub paths: Seq<Seq<int>>,
}

#[verifier::ext_equal]
pub ghost struct LinkView {
    pub source: int,
    pub target: int,
    pub type_only: bool,
    pub detail: Text,
    pub location: Option<Text>,
}

pub open spec fn id_list(ids: Seq<usize>) -> Seq<int> {
    ids.map_values(|i: usize| i as int)
}

pub open spec fn id_lists(lists: Seq<Vec<usize>>) -> Seq<Seq<int>> {
    lists.map_values(|l: Vec<usize>| id_list(l@))
}

impl View for GraphNode {
    type V = NodeView;

    open spec fn view(&self) -> NodeView {
        NodeView {
            id: self.id as int,
            label: self.label@,
            file: self.file@,
            symbol: self.symbol@,
            package: self.package@,
            kind: self.kind,
            details: texts_of(self.details@),
            paths: id_lists(self.paths@),
        }
    }
}

impl View for GraphLink {
    type V = LinkView;

    open spec fn view(&self) -> LinkView {
        LinkView {
            source: self.source as int,
            target: self.target as int,
            type_only: self.type_only,
            detail: self.detail@,
            location: self.location.model(),
        }
    }
}

pub open spec fn node_views(list: Seq<GraphNode>) -> Seq<NodeView> {
    list.map_values(|n: GraphNode| n@)
}

pub open spec fn link_views(list: Seq<GraphLink>) -> Seq<LinkView> {
    list.map_values(|l: GraphLink| l@)
}

/// The place of the page that the data of the graph takes.
pub const DATA_MARK: &'static str = "/*__DATA__*/null";

/// A text with every occurrence of a mark replaced, from left to right.
pub open spec fn replaced(text: Text, mark: Text, by: Text) -> Text
    decreases text.len(),
{
    if mark.len() == 0 || text.len() < mark.len() {
        text
    } else if mark.is_prefix_of(text) {
        by + replaced(text.skip(mark.len() as int), mark, by)
    } else {
        seq![text[0]] + replaced(text.skip(1), mark, by)
    }
}

fn stands(text: &Vec<char>, mark: &Vec<char>, at: usize) -> (r: bool)
    requires
        at + mark.len() <= text.len(),
    ensures
        r == mark@.is_prefix_of(text@.skip(at as int)),
{
    let ghost rest = text@.skip(at as int);
    let mut k: usize = 0;
    while k < mark.len()
        invariant
            k <= mark.len(),
            at + mark.len() <= text.len(),
            rest == text@.skip(at as int),
            forall|j: int| 0 <= j < k ==> rest[j] == mark@[j],
        decreases mark.len() - k,
    {
        if text[at + k] != mark[k] {
            assert(rest[k as int] != mark@[k as int]);
            assert(rest.subrange(0, mark@.len() as int)[k as int] != mark@[k as int]);
            return false;
        }
        k += 1;
    }
    assert(mark@ =~= rest.subrange(0, mark@.len() as int));
    true
}

/// Replaces every occurrence of a mark.
pub fn replace_all(text: &str, mark: &str, by: &str) -> (r: String)
    requires
        mark@.len() > 0,
    ensures
        r@ == replaced(text@, mark@, by@),
{
    let chars = chars_of(text);
    let m = chars_of(mark);
    let mut out = String::new();
    let mut i: usize = 0;
    assert(chars@.skip(0) =~= text@);
    assert(out@ + replaced(text@, mark@, by@) =~= replaced(text@, mark@, by@));
    while i < chars.len()
        invariant
            i <= chars.len(),
            chars@ == text@,
            m@ == mark@,
            m@.len() > 0,
            out@ + replaced(chars@.skip(i as int), mark@, by@) == replaced(text@, mark@, by@),
        decreases chars.len() - i,
    {
        let ghost rest = chars@.skip(i as int);
        let ghost before = out@;
        if chars.len() - i >= m.len() && stands(&chars, &m, i) {
            out.append(by);
            proof {
                assert(rest.skip(m@.len() as int) =~= chars@.skip(i + m@.len()));
                assert(before + (by@ + replaced(rest.skip(m@.len() as int), mark@, by@)) =~= out@
                    + replaced(chars@.skip(i + m@.len()), mark@, by@));
            }
            i += m.len();
        } else {
            out.push(chars[i]);
            proof {
                let next = chars@.skip(i + 1);
                assert(rest.skip(1) =~= next);
                if rest.len() < m@.len() {
                    assert(replaced(rest, mark@, by@) == rest);
                    assert(replaced(next, mark@, by@) == next);
                    assert(rest =~= seq![rest[0]] + next);
                }
                assert(before + (seq![rest[0]] + replaced(next, mark@, by@)) =~= out@ + replaced(
                    next,
                    mark@,
                    by@,
                ));
            }
            i += 1;
        }
    }
    assert(chars@.skip(i as int) =~= Seq::<char>::empty());
    assert(out@ + Seq::<char>::empty() =~= out@);
    out
}

/// The page for a graph whose data is written as JSON: the template with the data at its mark.
pub fn render_html(template: &str, data: &str) -> (r: String)
    ensures
        r@ == replaced(template@, DATA_MARK@, data@),
{
    proof {
        reveal_strlit("/*__DATA__*/null");
        assert(DATA_MARK@.len() == 16);
    }
    replace_all(template, DATA_MARK, data)
}

/// The first occurrence of a mark is replaced, and what stands before it is kept; a text without
/// the mark is kept whole.
pub proof fn marks_are_replaced(front: Text, mark: Text, back: Text, by: Text)
    requires
        mark.len() > 0,
        forall|i: int|
            0 <= i < front.len() ==> !mark.is_prefix_of(#[trigger] (front + mark + back).skip(i)),
    ensures
        replaced(front + mark + back, mark, by) == front + by + replaced(back, mark, by),
    decreases front.len(),
{
    let text = front + mark + back;
    if front.len() == 0 {
        assert(text.subrange(0, mark.len() as int) =~= mark);
        assert(mark.is_prefix_of(text));
        assert(text.skip(mark.len() as int) =~= back);
        assert(replaced(text, mark, by) =~= front + by + replaced(back, mark, by));
    } else {
        let rest = front.skip(1) + mark + back;
        assert(text.skip(0) =~= text);
        assert(text.skip(1) =~= rest);
        assert forall|i: int| 0 <= i < front.skip(1).len() implies !mark.is_prefix_of(
            #[trigger] rest.skip(i),
        ) by {
            assert(rest.skip(i) =~= text.skip(i + 1));
        }
        marks_are_replaced(front.skip(1), mark, back, by);
        assert(!mark.is_prefix_of(text));
        assert(replaced(text, mark, by) =~= front + by + replaced(back, mark, by));
    }
}

/// A text without the mark is kept as it is.
pub proof fn texts_without_the_mark_are_kept(text: Text, mark: Text, by: Text)
    requires
        forall|i: int| 0 <= i <= text.len() ==> !mark.is_prefix_of(#[trigger] text.skip(i)),
    ensures
        replaced(text, mark, by) == text,
    decreases text.len(),
{
    if mark.len() != 0 && text.len() >= mark.len() {
        assert(text.skip(0) =~= text);
        let rest = text.skip(1);
        assert forall|i: int| 0 <= i <= rest.len() implies !mark.is_prefix_of(#[trigger] rest.skip(i)) by {
            assert(rest.skip(i) =~= text.skip(i + 1));
        }
        texts_without_the_mark_are_kept(rest, mark, by);
        assert(replaced(text, mark, by) =~= text);
    }
}

} // verus!
