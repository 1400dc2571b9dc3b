//! A tree as bytes: a sixteen-byte header, then every slot of the arena in order.

use vstd::prelude::*;

use super::node::{Node, TreeKey, TreeValue};
use super::RedBlackTree;
#[allow(unused_imports)]
use crate::bytes::{lemma_parts_agree, lemma_u32, lemma_zero_parts, lemma_zero_u32, zeroes};
use crate::bytes::{put_u32, take_u32, u32_bytes, Plain};
#[allow(unused_imports)]
use super::view::TreeView;

verus! {

/// The slots of an arena, one after the other.
pub open spec fn arena_bytes<K: Plain, V: Plain>(nodes: Seq<Node<K, V>>) -> Seq<u8>
    decreases nodes.len(),
{
    if nodes.len() == 0 {
        Seq::empty()
    } else {
        arena_bytes(nodes.drop_last()) + nodes.last().to_bytes()
    }
}

/// An arena takes one slot's bytes per slot.
pub proof fn lemma_arena_len<K: Plain, V: Plain>(nodes: Seq<Node<K, V>>)
    ensures
        arena_bytes(nodes).len() == nodes.len() * Node::<K, V>::byte_len(),
    decreases nodes.len(),
{
    let slot = Node::<K, V>::byte_len() as int;
    if nodes.len() > 0 {
        lemma_arena_len(nodes.drop_last());
        nodes.last().lemma_byte_len();
        let n = nodes.len() as int;
        assert((n - 1) * slot + slot == n * slot) by (nonlinear_arith);
    }
}

/// Each slot stands one slot's bytes on from the last.
proof fn lemma_slot_at<K: Plain, V: Plain>(nodes: Seq<Node<K, V>>, i: int)
    requires
        0 <= i < nodes.len(),
    ensures
        0 <= i * Node::<K, V>::byte_len() <= (i + 1) * Node::<K, V>::byte_len() <= arena_bytes(
            nodes,
        ).len(),
        arena_bytes(nodes).subrange(
            i * Node::<K, V>::byte_len(),
            (i + 1) * Node::<K, V>::byte_len(),
        ) == nodes[i].to_bytes(),
    decreases nodes.len(),
{
    let slot = Node::<K, V>::byte_len() as int;
    let rest = nodes.drop_last();
    let n = rest.len() as int;
    lemma_arena_len(nodes);
    lemma_arena_len(rest);
    nodes.last().lemma_byte_len();
    assert(0 <= i * slot && i * slot + slot == (i + 1) * slot && (i + 1) * slot <= (n + 1) * slot)
        by (nonlinear_arith)
        requires
            0 <= i <= n,
            0 <= slot,
    ;
    if i < n {
        lemma_slot_at(rest, i);
        assert(arena_bytes(nodes).subrange(i * slot, (i + 1) * slot) =~= arena_bytes(
            rest,
        ).subrange(i * slot, (i + 1) * slot));
    } else {
        assert(arena_bytes(nodes).subrange(i * slot, (i + 1) * slot) =~= nodes.last().to_bytes());
    }
}

/// Arenas of equal capacity with equal bytes are equal.
pub proof fn lemma_arena_injective<K: Plain, V: Plain>(
    nodes: Seq<Node<K, V>>,
    others: Seq<Node<K, V>>,
)
    requires
        nodes.len() == others.len(),
        arena_bytes(nodes) == arena_bytes(others),
    ensures
        nodes == others,
    decreases nodes.len(),
{
    if nodes.len() > 0 {
        lemma_arena_len(nodes.drop_last());
        lemma_arena_len(others.drop_last());
        lemma_parts_agree(
            arena_bytes(nodes.drop_last()),
            nodes.last().to_bytes(),
            arena_bytes(others.drop_last()),
            others.last().to_bytes(),
        );
        lemma_arena_injective(nodes.drop_last(), others.drop_last());
        nodes.last().lemma_bytes_injective(others.last());
        assert(nodes =~= nodes.drop_last().push(nodes.last()));
        assert(others =~= others.drop_last().push(others.last()));
    } else {
        assert(nodes =~= others);
    }
}

/// A zeroed arena holds zero keys and zero values.
proof fn lemma_arena_zero<K: TreeKey + Plain, V: TreeValue + Plain>(nodes: Seq<Node<K, V>>)
    requires
        K::zero().to_bytes() == zeroes(K::byte_len()),
        V::zero().to_bytes() == zeroes(V::byte_len()),
        arena_bytes(nodes) == zeroes(arena_bytes(nodes).len()),
    ensures
        forall|i: int|
            0 <= i < nodes.len() ==> (#[trigger] nodes[i]).key == K::zero() && nodes[i].value
                == V::zero(),
    decreases nodes.len(),
{
    if nodes.len() > 0 {
        let last = nodes.last();
        lemma_zero_parts(arena_bytes(nodes.drop_last()), last.to_bytes());
        lemma_arena_zero(nodes.drop_last());
        last.key.lemma_byte_len();
        last.value.lemma_byte_len();
        let links = u32_bytes(last.left) + u32_bytes(last.right) + u32_bytes(last.parent)
            + u32_bytes(last.color);
        lemma_zero_parts(links + last.key.to_bytes(), last.value.to_bytes());
        lemma_zero_parts(links, last.key.to_bytes());
        last.key.lemma_bytes_injective(K::zero());
        last.value.lemma_bytes_injective(V::zero());
        assert forall|i: int| 0 <= i < nodes.len() implies (#[trigger] nodes[i]).key == K::zero()
            && nodes[i].value == V::zero() by {
            if i < nodes.len() - 1 {
                assert(nodes[i] == nodes.drop_last()[i]);
            }
        }
    }
}

impl<K: TreeKey + Plain, V: TreeValue + Plain, const N: usize> RedBlackTree<K, V, N> {
    /// Bytes in the encoding.
    pub open spec fn byte_len() -> nat {
        16 + N as nat * Node::<K, V>::byte_len()
    }

    /// The encoding.
    pub closed spec fn to_bytes(self) -> Seq<u8> {
        u32_bytes(self.root) + u32_bytes(self.free_head) + u32_bytes(self.bump) + u32_bytes(
            self.len,
        ) + arena_bytes(self.nodes@)
    }

    /// Every tree of one capacity takes the same number of bytes.
    pub proof fn lemma_byte_len(self)
        ensures
            self.to_bytes().len() == Self::byte_len(),
    {
        lemma_u32(self.root);
        lemma_u32(self.free_head);
        lemma_u32(self.bump);
        lemma_u32(self.len);
        lemma_arena_len(self.nodes@);
    }

    /// A tree is its root, the head of its free list, how many slots were ever handed out,
    /// how many entries it has, and its slots in order.
    pub(crate) proof fn law_trees_are_laid_out(self, i: int)
        requires
            0 <= i < N,
        ensures
            ({
                let bytes = self.to_bytes();
                let slot = Node::<K, V>::byte_len() as int;
                &&& bytes.len() == 16 + N * slot
                &&& bytes.subrange(0, 4) == u32_bytes(self.root)
                &&& bytes.subrange(4, 8) == u32_bytes(self.free_head)
                &&& bytes.subrange(8, 12) == u32_bytes(self.bump)
                &&& bytes.subrange(12, 16) == u32_bytes(self.len)
                &&& bytes.skip(16).subrange(i * slot, (i + 1) * slot) == self.nodes@[i].to_bytes()
            }),
    {
        self.lemma_byte_len();
        lemma_u32(self.root);
        lemma_u32(self.free_head);
        lemma_u32(self.bump);
        lemma_u32(self.len);
        let bytes = self.to_bytes();
        assert(bytes.subrange(0, 4) =~= u32_bytes(self.root));
        assert(bytes.subrange(4, 8) =~= u32_bytes(self.free_head));
        assert(bytes.subrange(8, 12) =~= u32_bytes(self.bump));
        assert(bytes.subrange(12, 16) =~= u32_bytes(self.len));
        assert(bytes.skip(16) =~= arena_bytes(self.nodes@));
        lemma_slot_at(self.nodes@, i);
    }

    /// Distinct trees have distinct bytes, so a tree can be read back from what was written.
    pub proof fn law_bytes_determine_the_tree(self, other: Self)
        requires
            self.to_bytes() == other.to_bytes(),
        ensures
            self == other,
    {
        lemma_u32(self.root);
        lemma_u32(self.free_head);
        lemma_u32(self.bump);
        lemma_u32(self.len);
        lemma_u32(other.root);
        lemma_u32(other.free_head);
        lemma_u32(other.bump);
        lemma_u32(other.len);
        lemma_parts_agree(
            u32_bytes(self.root) + u32_bytes(self.free_head) + u32_bytes(self.bump) + u32_bytes(
                self.len,
            ),
            arena_bytes(self.nodes@),
            u32_bytes(other.root) + u32_bytes(other.free_head) + u32_bytes(other.bump)
                + u32_bytes(other.len),
            arena_bytes(other.nodes@),
        );
        lemma_parts_agree(
            u32_bytes(self.root) + u32_bytes(self.free_head) + u32_bytes(self.bump),
            u32_bytes(self.len),
            u32_bytes(other.root) + u32_bytes(other.free_head) + u32_bytes(other.bump),
            u32_bytes(other.len),
        );
        lemma_parts_agree(
            u32_bytes(self.root) + u32_bytes(self.free_head),
            u32_bytes(self.bump),
            u32_bytes(other.root) + u32_bytes(other.free_head),
            u32_bytes(other.bump),
        );
        lemma_parts_agree(
            u32_bytes(self.root),
            u32_bytes(self.free_head),
            u32_bytes(other.root),
            u32_bytes(other.free_head),
        );
        lemma_arena_injective(self.nodes@, other.nodes@);
        assert(self.nodes =~= other.nodes);
    }

    /// Zeroed memory is an empty tree at full capacity.
    pub proof fn law_zeroed_bytes_are_an_empty_tree(self)
        requires
            N <= u32::MAX,
            K::zero().to_bytes() == zeroes(K::byte_len()),
            V::zero().to_bytes() == zeroes(V::byte_len()),
            self.to_bytes() == zeroes(Self::byte_len()),
        ensures
            self.wf(),
            self.view() == TreeView::<K, V>::blank(N as nat, V::zero()),
    {
        self.lemma_byte_len();
        lemma_u32(self.root);
        lemma_u32(self.free_head);
        lemma_u32(self.bump);
        lemma_u32(self.len);
        let root = u32_bytes(self.root);
        let free = u32_bytes(self.free_head);
        let bump = u32_bytes(self.bump);
        let len = u32_bytes(self.len);
        lemma_zero_parts(root + free + bump + len, arena_bytes(self.nodes@));
        lemma_zero_parts(root + free + bump, len);
        lemma_zero_parts(root + free, bump);
        lemma_zero_parts(root, free);
        lemma_zero_u32(self.root);
        lemma_zero_u32(self.free_head);
        lemma_zero_u32(self.bump);
        lemma_zero_u32(self.len);
        lemma_arena_zero(self.nodes@);
        self.lemma_empty();
        assert(self.view() =~= TreeView::<K, V>::blank(N as nat, V::zero()));
    }

    /// Bytes a tree of this capacity takes.
    pub fn size_in_bytes() -> (size: usize)
        requires
            Self::byte_len() <= usize::MAX,
        ensures
            size == Self::byte_len(),
    {
        let ghost slot = Node::<K, V>::byte_len() as int;
        if N == 0 {
            proof {
                assert(N * slot == 0) by (nonlinear_arith)
                    requires
                        N == 0,
                ;
            }
            return 16;
        }
        proof {
            assert(slot <= N * slot) by (nonlinear_arith)
                requires
                    N >= 1,
                    slot >= 0,
            ;
        }
        16 + N * Node::<K, V>::size_in_bytes()
    }

    /// Appends the tree's bytes.
    pub fn put(&self, out: &mut Vec<u8>)
        ensures
            final(out)@ == old(out)@ + self.to_bytes(),
    {
        put_u32(out, self.root);
        put_u32(out, self.free_head);
        put_u32(out, self.bump);
        put_u32(out, self.len);
        let ghost start = out@;
        let mut i: usize = 0;
        while i < N
            invariant
                i <= N,
                self.nodes@.len() == N,
                out@ == start + arena_bytes(self.nodes@.take(i as int)),
            decreases N - i,
        {
            self.nodes[i].put(out);
            proof {
                let upto = self.nodes@.take(i + 1);
                assert(upto.drop_last() =~= self.nodes@.take(i as int));
                assert(out@ =~= start + arena_bytes(upto));
            }
            i = i + 1;
        }
        proof {
            assert(self.nodes@.take(N as int) =~= self.nodes@);
            assert(out@ =~= old(out)@ + self.to_bytes());
        }
    }

    /// Reads the tree whose bytes stand at `at`. Any bytes are some tree, though not
    /// always a sound one; [`RedBlackTree::check`] tells.
    pub fn take(bytes: &[u8], at: usize) -> (tree: Box<Self>)
        requires
            N <= u32::MAX,
            at + Self::byte_len() <= bytes@.len(),
        ensures
            tree.to_bytes() == bytes@.subrange(at as int, at + Self::byte_len()),
    {
        let len = bytes.len();
        let ghost slot = Node::<K, V>::byte_len() as int;
        proof {
            assert(N * slot >= 0) by (nonlinear_arith)
                requires
                    slot >= 0,
            ;
        }
        let mut tree: Box<Self> = Box::new(Self::new());
        tree.root = take_u32(bytes, at);
        tree.free_head = take_u32(bytes, at + 4);
        tree.bump = take_u32(bytes, at + 8);
        tree.len = take_u32(bytes, at + 12);
        let ghost header = *tree;
        let mut offset: usize = at + 16;
        let mut i: usize = 0;
        while i < N
            invariant
                i <= N,
                len == bytes@.len(),
                slot == Node::<K, V>::byte_len(),
                at + 16 + N * slot <= len,
                offset == at + 16 + i * slot,
                tree.nodes@.len() == N,
                tree.root == header.root,
                tree.free_head == header.free_head,
                tree.bump == header.bump,
                tree.len == header.len,
                arena_bytes(tree.nodes@.take(i as int)) == bytes@.subrange(at + 16, offset as int),
            decreases N - i,
        {
            proof {
                assert(i * slot + slot == (i + 1) * slot) by (nonlinear_arith);
                assert((i + 1) * slot <= N * slot) by (nonlinear_arith)
                    requires
                        i + 1 <= N,
                        slot >= 0,
                ;
                assert(i * slot >= 0) by (nonlinear_arith)
                    requires
                        slot >= 0,
                ;
            }
            let ghost before = tree.nodes@;
            let node = Node::<K, V>::take(bytes, offset);
            tree.nodes[i] = node;
            proof {
                let upto = tree.nodes@.take(i + 1);
                assert(upto.drop_last() =~= before.take(i as int));
                assert(upto.last() == node);
                assert(bytes@.subrange(at + 16, offset + slot) =~= bytes@.subrange(
                    at + 16,
                    offset as int,
                ) + bytes@.subrange(offset as int, offset + slot));
            }
            offset = offset + Node::<K, V>::size_in_bytes();
            i = i + 1;
        }
        proof {
            assert(tree.nodes@.take(N as int) =~= tree.nodes@);
            assert(tree.to_bytes() =~= bytes@.subrange(at as int, at + Self::byte_len()));
        }
        tree
    }
}

} // verus!
