//! The points of the dependency graph.
use vstd::prelude::*;

use crate::order::{Key, Rank};
use crate::path::FilePath;

verus! {

/// A symbol of a module. Deployment targets stand under the file `<target>`.
pub struct Node {
    pub file: FilePath,
    pub symbol: String,
}

/// A node as a mathematical value: the components of its file and its symbol.
pub type NodeModel = (Seq<Seq<char>>, Seq<char>);

impl View for Node {
    type V = NodeModel;

    open spec fn view(&self) -> NodeModel {
        (self.file@, self.symbol@)
    }
}

/// Nodes are ordered by file, then by symbol.
impl Key for Node {
    type M = NodeModel;

    open spec fn model(&self) -> NodeModel {
        self@
    }

    open spec fn precedes(a: NodeModel, b: NodeModel) -> bool {
        <(FilePath, String)>::precedes(a, b)
    }

    proof fn order_laws(a: NodeModel, b: NodeModel, c: NodeModel) {
        <(FilePath, String)>::order_laws(a, b, c);
    }

    fn rank(&self, other: &Node) -> (r: Rank) {
        match self.file.rank(&other.file) {
            Rank::Before => Rank::Before,
            Rank::After => Rank::After,
            Rank::Same => self.symbol.rank(&other.symbol),
        }
    }

    fn dup(&self) -> (r: Node) {
        Node { file: self.file.dup(), symbol: self.symbol.clone() }
    }
}

impl Node {
    pub fn new(file: FilePath, symbol: String) -> (r: Node)
        ensures
            r@ == (file@, symbol@),
    {
        Node { file, symbol }
    }

    pub fn same_as(&self, other: &Node) -> (r: bool)
        ensures
            r == (self@ == other@),
    {
        self.symbol == other.symbol && self.file.same_as(&other.file)
    }
}

} // verus!
