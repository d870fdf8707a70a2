//! Keeping the nodes whose version a client can work with.

use vstd::prelude::*;
use crate::version_checker::{compatible, is_compatible};

verus! {

/// What a node must offer to be filtered by version.
pub trait Versioned: Clone + Sized {
    /// The version that the node declares.
    spec fn version_view(&self) -> Seq<char>;

    fn get_version(&self) -> (version: String)
        ensures
            version@ == self.version_view(),
    ;

    /// A clone of a node is that node again.
    proof fn lemma_clone_is_exact(&self, copy: &Self)
        requires
            cloned(*self, *copy),
        ensures
            *copy == *self,
    ;
}

/// The nodes of `nodes`, in their order, whose declared version is
/// compatible with `expected`.
pub open spec fn compatible_nodes<T: Versioned>(nodes: Seq<T>, expected: Seq<char>) -> Seq<T>
    decreases nodes.len(),
{
    if nodes.len() == 0 {
        Seq::empty()
    } else {
        let rest = compatible_nodes(nodes.drop_last(), expected);
        if compatible(nodes.last().version_view(), expected) {
            rest.push(nodes.last())
        } else {
            rest
        }
    }
}

/// Every node that the filter keeps is compatible, and was among the nodes
/// that went in.
pub proof fn lemma_compatible_nodes_kept<T: Versioned>(nodes: Seq<T>, expected: Seq<char>, k: int)
    requires
        0 <= k < compatible_nodes(nodes, expected).len(),
    ensures
        compatible(compatible_nodes(nodes, expected)[k].version_view(), expected),
        nodes.contains(compatible_nodes(nodes, expected)[k]),
    decreases nodes.len(),
{
    let rest = compatible_nodes(nodes.drop_last(), expected);
    if k < rest.len() {
        lemma_compatible_nodes_kept(nodes.drop_last(), expected, k);
        let kept = rest[k];
        let at = choose|at: int| 0 <= at < nodes.drop_last().len() && nodes.drop_last()[at] == kept;
        assert(nodes[at] == kept);
    } else {
        assert(nodes[nodes.len() - 1] == nodes.last());
    }
}

/// A compatible node that goes in comes out.
pub proof fn lemma_compatible_nodes_complete<T: Versioned>(
    nodes: Seq<T>,
    expected: Seq<char>,
    at: int,
)
    requires
        0 <= at < nodes.len(),
        compatible(nodes[at].version_view(), expected),
    ensures
        compatible_nodes(nodes, expected).contains(nodes[at]),
    decreases nodes.len(),
{
    let rest = compatible_nodes(nodes.drop_last(), expected);
    if at < nodes.len() - 1 {
        lemma_compatible_nodes_complete(nodes.drop_last(), expected, at);
        let k = choose|k: int| 0 <= k < rest.len() && rest[k] == nodes.drop_last()[at];
        assert(compatible_nodes(nodes, expected)[k] == nodes[at]);
    } else {
        assert(compatible_nodes(nodes, expected)[rest.len() as int] == nodes[at]);
    }
}

/// Filtering what was filtered for the same expected version changes
/// nothing.
pub proof fn lemma_filter_idempotent<T: Versioned>(nodes: Seq<T>, expected: Seq<char>)
    ensures
        compatible_nodes(compatible_nodes(nodes, expected), expected) == compatible_nodes(
            nodes,
            expected,
        ),
    decreases nodes.len(),
{
    if nodes.len() > 0 {
        let rest = compatible_nodes(nodes.drop_last(), expected);
        lemma_filter_idempotent(nodes.drop_last(), expected);
        if compatible(nodes.last().version_view(), expected) {
            let once = rest.push(nodes.last());
            assert(once.drop_last() =~= rest);
            assert(once.last() == nodes.last());
        }
    }
}

/// A copy of each of `nodes`, in their order.
pub fn clone_nodes<T: Versioned>(nodes: &Vec<T>) -> (copy: Vec<T>)
    ensures
        copy@ == nodes@,
{
    let mut copy: Vec<T> = Vec::new();
    let mut k: usize = 0;
    while k < nodes.len()
        invariant
            k <= nodes@.len(),
            copy@ == nodes@.take(k as int),
        decreases nodes@.len() - k,
    {
        let node = nodes[k].clone();
        proof {
            nodes@[k as int].lemma_clone_is_exact(&node);
        }
        copy.push(node);
        assert(copy@ =~= nodes@.take(k + 1));
        k += 1;
    }
    assert(nodes@.take(k as int) =~= nodes@);
    copy
}

/// A set of nodes of one class, to be filtered by version.
pub struct Filter<T> {
    nodes: Vec<T>,
}

impl<T: Versioned> Filter<T> {
    /// The nodes that the filter holds.
    pub closed spec fn view(&self) -> Seq<T> {
        self.nodes@
    }

    pub fn new(nodes: Vec<T>) -> (filter: Self)
        ensures
            filter@ == nodes@,
    {
        Filter { nodes }
    }

    /// The nodes whose declared version is compatible with
    /// `expected_version`, in the order in which the filter holds them.
    pub fn run(&self, expected_version: &str) -> (kept: Vec<T>)
        ensures
            kept@ == compatible_nodes(self@, expected_version@),
    {
        let mut kept: Vec<T> = Vec::new();
        let mut i: usize = 0;
        while i < self.nodes.len()
            invariant
                i <= self.nodes@.len(),
                kept@ == compatible_nodes(self.nodes@.take(i as int), expected_version@),
            decreases self.nodes@.len() - i,
        {
            let node = &self.nodes[i];
            let version = node.get_version();
            proof {
                let next = self.nodes@.take(i + 1);
                assert(next.drop_last() =~= self.nodes@.take(i as int));
                assert(next.last() == *node);
            }
            if is_compatible(version.as_str(), expected_version) {
                let copy = node.clone();
                proof {
                    node.lemma_clone_is_exact(&copy);
                }
                kept.push(copy);
            }
            i += 1;
        }
        assert(self.nodes@.take(i as int) =~= self.nodes@);
        kept
    }
}

} // verus!
