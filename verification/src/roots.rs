//! The roots of the subtrees that hold no commitment, one for each depth.

use crate::field::in_field;
use crate::merkle::merkle_parent;
use crate::node::{uncommitted_repr, Node, SAPLING_COMMITMENT_TREE_DEPTH};
use vstd::prelude::*;

verus! {

/// The root of the subtree of height `depth` whose leaves are all blank:
/// the blank leaf at height 0, and above it two equal roots joined at the
/// depth below.
pub open spec fn empty_root_repr(depth: nat) -> Seq<u64>
    decreases depth,
{
    if depth == 0 {
        uncommitted_repr()
    } else {
        merkle_parent(
            (depth - 1) as nat,
            empty_root_repr((depth - 1) as nat),
            empty_root_repr((depth - 1) as nat),
        )
    }
}

/// A table of empty roots: one entry for each depth from 0 to the tree's
/// height, the first the blank leaf, and every later one its predecessor
/// joined with itself at the predecessor's depth.
pub open spec fn is_empty_root_table(table: Seq<Seq<u64>>) -> bool {
    &&& table.len() == SAPLING_COMMITMENT_TREE_DEPTH + 1
    &&& table[0] == uncommitted_repr()
    &&& forall|d: int|
        0 <= d < SAPLING_COMMITMENT_TREE_DEPTH ==> #[trigger] table[d + 1] == merkle_parent(
            d as nat,
            table[d],
            table[d],
        )
}

/// The entries of a table of empty roots are the empty roots.
pub proof fn lemma_table_entry(table: Seq<Seq<u64>>, depth: nat)
    requires
        is_empty_root_table(table),
        depth <= SAPLING_COMMITMENT_TREE_DEPTH,
    ensures
        table[depth as int] == empty_root_repr(depth),
    decreases depth,
{
    if depth > 0 {
        lemma_table_entry(table, (depth - 1) as nat);
        assert(table[(depth - 1) + 1] == merkle_parent(
            (depth - 1) as nat,
            table[depth - 1],
            table[depth - 1],
        ));
    }
}

/// Two tables of empty roots are equal, wherever and whenever they were
/// built.
pub proof fn lemma_table_unique(first: Seq<Seq<u64>>, second: Seq<Seq<u64>>)
    requires
        is_empty_root_table(first),
        is_empty_root_table(second),
    ensures
        first == second,
{
    assert forall|d: int| 0 <= d < first.len() implies first[d] == second[d] by {
        lemma_table_entry(first, d as nat);
        lemma_table_entry(second, d as nat);
    }
    assert(first =~= second);
}

/// The table of empty roots for the depths 0 to
/// `SAPLING_COMMITMENT_TREE_DEPTH`. It is built once and never changes.
pub struct EmptyRoots {
    roots: Vec<Node>,
}

impl View for EmptyRoots {
    type V = Seq<Seq<u64>>;

    /// The representations of the roots, by depth.
    closed spec fn view(&self) -> Seq<Seq<u64>> {
        Seq::new(self.roots@.len(), |d: int| self.roots@[d]@)
    }
}

impl EmptyRoots {
    #[verifier::type_invariant]
    spec fn well_formed(self) -> bool {
        &&& is_empty_root_table(self@)
        &&& forall|d: int| 0 <= d <= SAPLING_COMMITMENT_TREE_DEPTH ==> in_field(#[trigger] self@[d])
    }

    /// Builds the table from the blank leaf upwards.
    pub fn new() -> (table: EmptyRoots)
        ensures
            is_empty_root_table(table@),
            forall|d: int| 0 <= d <= SAPLING_COMMITMENT_TREE_DEPTH ==> in_field(#[trigger] table@[d]),
    {
        let mut roots: Vec<Node> = Vec::new();
        roots.push(Node::blank());
        let mut d: usize = 0;
        while d < SAPLING_COMMITMENT_TREE_DEPTH
            invariant
                0 <= d <= SAPLING_COMMITMENT_TREE_DEPTH,
                roots@.len() == d + 1,
                roots@[0]@ == uncommitted_repr(),
                forall|k: int|
                    0 <= k < d ==> (#[trigger] roots@[k + 1])@ == merkle_parent(
                        k as nat,
                        roots@[k]@,
                        roots@[k]@,
                    ),
                forall|k: int| 0 <= k <= d ==> in_field((#[trigger] roots@[k])@),
            decreases SAPLING_COMMITMENT_TREE_DEPTH - d,
        {
            let next = Node::combine(d, &roots[d], &roots[d]);
            roots.push(next);
            d = d + 1;
        }
        let table = EmptyRoots { roots };
        assert(is_empty_root_table(table@)) by {
            assert forall|k: int| 0 <= k < SAPLING_COMMITMENT_TREE_DEPTH implies #[trigger] table@[k
                + 1] == merkle_parent(k as nat, table@[k], table@[k]) by {
                assert(table.roots@[k + 1]@ == merkle_parent(
                    k as nat,
                    table.roots@[k]@,
                    table.roots@[k]@,
                ));
            }
        }
        table
    }

    /// Number of roots in the table.
    pub fn len(&self) -> (n: usize)
        ensures
            n == SAPLING_COMMITMENT_TREE_DEPTH + 1,
            n == self@.len(),
    {
        proof {
            use_type_invariant(self);
        }
        self.roots.len()
    }

    /// The empty root at `depth`, or nothing when the tree has no such
    /// depth.
    pub fn get(&self, depth: usize) -> (root: Option<Node>)
        ensures
            root is Some <==> depth <= SAPLING_COMMITMENT_TREE_DEPTH,
            root matches Some(node) ==> node@ == self@[depth as int] && node@ == empty_root_repr(
                depth as nat,
            ) && in_field(node@),
    {
        if depth <= SAPLING_COMMITMENT_TREE_DEPTH {
            Some(Node::empty_root(depth, self))
        } else {
            None
        }
    }
}

impl Node {
    /// The root of the empty subtree of height `depth`, looked up in the
    /// table.
    pub fn empty_root(depth: usize, roots: &EmptyRoots) -> (root: Node)
        requires
            depth <= SAPLING_COMMITMENT_TREE_DEPTH,
        ensures
            root@ == roots@[depth as int],
            root@ == empty_root_repr(depth as nat),
            in_field(root@),
    {
        proof {
            use_type_invariant(roots);
            lemma_table_entry(roots@, depth as nat);
        }
        roots.roots[depth]
    }
}

} // verus!
