//! Structural self-check.
//!
//! Exists for fuzzing: a coverage-guided fuzzer needs a cheap, allocation-free predicate
//! it can assert after every operation, and given one it finds rebalancing bugs on its
//! own. That is why violations are a `Copy` enum rather than a message.

use vstd::prelude::*;

#[allow(unused_imports)]
use super::layout::{
    balanced, color_at, free_chain, lemma_free_unique, lemma_same_links, linked, node_balanced,
    node_linked, node_red_ok, red_ok, Label, Layout,
};
use super::node::{Handle, Node, TreeKey, TreeValue, BLACK, NIL, RED};
#[allow(unused_imports)]
use super::shape::{grows, lemma_linked_grows, lemma_linked_iff_grows, lemma_pigeonhole};
use super::RedBlackTree;

verus! {

/// A structural invariant that [`RedBlackTree::check`] found violated.
#[derive(Copy, Clone, Debug, PartialEq, Eq, Structural)]
pub enum Invariant {
    /// The root is not black.
    RootNotBlack,
    /// The root has a non-[`NIL`] parent.
    RootParentNotNil,
    /// A red node has a red child.
    RedRedViolation,
    /// Two root-to-leaf paths have different black heights.
    BlackHeightMismatch,
    /// In-order traversal is not strictly ascending by key.
    BstOrderViolation,
    /// A child's parent pointer does not point back at its parent, or the links form a
    /// cycle.
    ParentPointerMismatch,
    /// `len` disagrees with the number of reachable nodes.
    LenMismatch,
    /// The free list is cyclic, or free slots plus live nodes do not account for every
    /// slot the bump pointer handed out.
    FreeListCorrupt,
}

impl Invariant {
    /// The name of the variant.
    pub open spec fn text(self) -> Seq<char> {
        match self {
            Invariant::RootNotBlack => "RootNotBlack"@,
            Invariant::RootParentNotNil => "RootParentNotNil"@,
            Invariant::RedRedViolation => "RedRedViolation"@,
            Invariant::BlackHeightMismatch => "BlackHeightMismatch"@,
            Invariant::BstOrderViolation => "BstOrderViolation"@,
            Invariant::ParentPointerMismatch => "ParentPointerMismatch"@,
            Invariant::LenMismatch => "LenMismatch"@,
            Invariant::FreeListCorrupt => "FreeListCorrupt"@,
        }
    }

    /// The name of the variant.
    pub fn message(&self) -> (message: &'static str)
        ensures
            message@ == self.text(),
    {
        match self {
            Invariant::RootNotBlack => "RootNotBlack",
            Invariant::RootParentNotNil => "RootParentNotNil",
            Invariant::RedRedViolation => "RedRedViolation",
            Invariant::BlackHeightMismatch => "BlackHeightMismatch",
            Invariant::BstOrderViolation => "BstOrderViolation",
            Invariant::ParentPointerMismatch => "ParentPointerMismatch",
            Invariant::LenMismatch => "LenMismatch",
            Invariant::FreeListCorrupt => "FreeListCorrupt",
        }
    }
}

/// The black height of the subtree at `h`, or the first violation met on the way: at a
/// node before its subtrees, on the left before the right, and unequal heights last.
pub open spec fn black_height<K, V>(nodes: Seq<Node<K, V>>, h: Handle, fuel: nat) -> Result<
    int,
    Invariant,
>
    decreases fuel,
{
    if h == NIL || fuel == 0 {
        Ok(1int)
    } else {
        let node = nodes[h - 1];
        let less = (fuel - 1) as nat;
        let is_red = node.color == RED;
        if is_red && (color_at(nodes, node.left) == RED || color_at(nodes, node.right) == RED) {
            Err(Invariant::RedRedViolation)
        } else {
            match black_height(nodes, node.left, less) {
                Err(e) => Err(e),
                Ok(left) => match black_height(nodes, node.right, less) {
                    Err(e) => Err(e),
                    Ok(right) => if left != right {
                        Err(Invariant::BlackHeightMismatch)
                    } else if node.color == BLACK {
                        Ok(left + 1)
                    } else {
                        Ok(left)
                    },
                },
            }
        }
    }
}

/// A red slot with a red child.
pub open spec fn is_red_pair<K, V>(nodes: Seq<Node<K, V>>, h: Handle) -> bool {
    &&& h != NIL
    &&& nodes[h - 1].color == RED
    &&& color_at(nodes, nodes[h - 1].left) == RED || color_at(nodes, nodes[h - 1].right) == RED
}

/// Measuring a height fails by a red pair or by unequal heights, and by nothing else.
proof fn lemma_height_faults<K, V>(nodes: Seq<Node<K, V>>, h: Handle, fuel: nat)
    requires
        black_height(nodes, h, fuel) is Err,
    ensures
        match black_height(nodes, h, fuel)->Err_0 {
            Invariant::RedRedViolation => exists|g: Handle| is_red_pair(nodes, g),
            Invariant::BlackHeightMismatch => true,
            _ => false,
        },
    decreases fuel,
{
    let node = nodes[h - 1];
    let less = (fuel - 1) as nat;
    if is_red_pair(nodes, h) {
    } else if black_height(nodes, node.left, less) is Err {
        lemma_height_faults(nodes, node.left, less);
    } else if black_height(nodes, node.right, less) is Err {
        lemma_height_faults(nodes, node.right, less);
    }
}

/// More fuel than a tree has levels makes no difference.
proof fn lemma_fuel<K, V>(
    nodes: Seq<Node<K, V>>,
    h: Handle,
    parent: Handle,
    fuel: nat,
    more: nat,
)
    requires
        grows(nodes, h, parent, fuel),
        fuel <= more,
    ensures
        black_height(nodes, h, fuel) == black_height(nodes, h, more),
    decreases fuel,
{
    if h != NIL {
        let less = (fuel - 1) as nat;
        lemma_fuel(nodes, nodes[h - 1].left, h, less, (more - 1) as nat);
        lemma_fuel(nodes, nodes[h - 1].right, h, less, (more - 1) as nat);
    }
}

/// Within a tree of sound heights, every node's height is sound.
proof fn lemma_height_of<K, V>(
    nodes: Seq<Node<K, V>>,
    root: Handle,
    g: Layout,
    top: Handle,
    h: Handle,
)
    requires
        linked(nodes, root, g),
        g.live(top),
        g.live(h),
        g.label(top).lo <= g.label(h).pos < g.label(top).hi,
        g.order.len() <= nodes.len(),
        black_height(nodes, top, nodes.len()) is Ok,
    ensures
        black_height(nodes, h, nodes.len()) is Ok,
    decreases g.label(top).hi - g.label(top).lo,
{
    assert(node_linked(nodes, root, g, top));
    if h != top {
        assert(g.label(h).pos != g.label(top).pos);
        let child = if g.label(h).pos < g.label(top).pos {
            nodes[top - 1].left
        } else {
            nodes[top - 1].right
        };
        assert(node_linked(nodes, root, g, child));
        let less = (nodes.len() - 1) as nat;
        lemma_linked_grows(nodes, root, g, child, less);
        lemma_fuel(nodes, child, top, less, nodes.len());
        assert(black_height(nodes, child, less) is Ok);
        lemma_height_of(nodes, root, g, child, h);
    }
}

/// A red-black tree passes the height check, and its labels hold the heights.
proof fn lemma_balanced_height<K, V>(
    nodes: Seq<Node<K, V>>,
    root: Handle,
    g: Layout,
    h: Handle,
    fuel: nat,
)
    requires
        linked(nodes, root, g),
        balanced(nodes, g),
        red_ok(nodes, g, NIL),
        g.live(h),
        g.label(h).hi - g.label(h).lo <= fuel,
    ensures
        black_height(nodes, h, fuel) == Ok::<int, Invariant>(g.label(h).height),
    decreases fuel,
{
    assert(node_linked(nodes, root, g, h));
    assert(node_balanced(nodes, g, h));
    assert(node_red_ok(nodes, h, NIL));
    let left = nodes[h - 1].left;
    let right = nodes[h - 1].right;
    let less = (fuel - 1) as nat;
    if left != NIL {
        assert(node_linked(nodes, root, g, left));
        lemma_balanced_height(nodes, root, g, left, less);
    }
    if right != NIL {
        assert(node_linked(nodes, root, g, right));
        lemma_balanced_height(nodes, root, g, right, less);
    }
    assert(black_height(nodes, left, less) == Ok::<int, Invariant>(g.height_of(left)));
    assert(black_height(nodes, right, less) == Ok::<int, Invariant>(g.height_of(right)));
}

/// A chain that ends visits no slot twice.
proof fn lemma_chain_distinct<K, V>(
    nodes: Seq<Node<K, V>>,
    head: Handle,
    free: Seq<Handle>,
    i: int,
    j: int,
)
    requires
        free_chain(nodes, head, free),
        0 <= i < j < free.len(),
    ensures
        free[i] != free[j],
    decreases free.len() - j,
{
    if free[i] == free[j] {
        if j + 1 < free.len() {
            lemma_chain_distinct(nodes, head, free, i + 1, j + 1);
            assert(free[i + 1] == nodes[free[i] - 1].left);
            assert(free[j + 1] == nodes[free[j] - 1].left);
        } else {
            assert(nodes[free[j] - 1].left == NIL);
            assert(1 <= free[i + 1]);
        }
    }
}

impl<K: TreeKey, V: TreeValue, const N: usize> RedBlackTree<K, V, N> {
    /// The root is a slot of the arena, or absent.
    pub closed spec fn root_in_range(self) -> bool {
        self.root <= N
    }

    /// The root is black.
    pub closed spec fn root_is_black(self) -> bool {
        color_at(self.nodes@, self.root) == BLACK
    }

    /// The root has no parent.
    pub closed spec fn root_is_topmost(self) -> bool {
        self.root == NIL || self.nodes@[self.root - 1].parent == NIL
    }

    /// The black height of the whole tree, or the first violation met in measuring it.
    pub closed spec fn measured_height(self) -> Result<int, Invariant> {
        black_height(self.nodes@, self.root, N as nat)
    }

    /// The free list ends, and together with the live nodes accounts for every slot the
    /// bump pointer handed out.
    pub closed spec fn slots_are_accounted(self) -> bool {
        &&& exists|free: Seq<Handle>| free_chain(self.nodes@, self.free_head, free)
        &&& self.view().is_accounted()
    }

    /// Every live node is red or black.
    pub closed spec fn colors_are_valid(self) -> bool {
        forall|i: int|
            0 <= i < self.order().len() ==> {
                let color = self.nodes@[#[trigger] self.order()[i] - 1].color;
                color == RED || color == BLACK
            }
    }

    /// The first invariant violated, in the order they are looked at.
    pub open spec fn first_violation(self) -> Result<(), Invariant> {
        if !self.root_in_range() {
            Err(Invariant::ParentPointerMismatch)
        } else if !self.root_is_black() {
            Err(Invariant::RootNotBlack)
        } else if !self.root_is_topmost() {
            Err(Invariant::RootParentNotNil)
        } else if !self.is_linked() {
            Err(Invariant::ParentPointerMismatch)
        } else if !self.is_search_tree() {
            Err(Invariant::BstOrderViolation)
        } else if self.stored_len() != self.view().len() {
            Err(Invariant::LenMismatch)
        } else if self.measured_height() is Err {
            Err(self.measured_height()->Err_0)
        } else if !self.slots_are_accounted() {
            Err(Invariant::FreeListCorrupt)
        } else {
            Ok(())
        }
    }

    /// A violation is reported as what it is, and only where nothing that is looked at
    /// before it is violated.
    pub proof fn law_violations_are_named(self)
        ensures
            match self.first_violation() {
                Err(Invariant::RootNotBlack) => self.root_in_range() && !self.root_is_black(),
                Err(Invariant::RootParentNotNil) => {
                    &&& self.root_in_range()
                    &&& self.root_is_black()
                    &&& !self.root_is_topmost()
                },
                Err(Invariant::ParentPointerMismatch) => !self.root_in_range() || {
                    &&& self.root_is_black()
                    &&& self.root_is_topmost()
                    &&& !self.is_linked()
                },
                Err(Invariant::BstOrderViolation) => self.is_linked() && !self.is_search_tree(),
                Err(Invariant::LenMismatch) => {
                    &&& self.is_linked()
                    &&& self.is_search_tree()
                    &&& self.stored_len() != self.view().len()
                },
                Err(Invariant::RedRedViolation) => {
                    &&& self.is_linked()
                    &&& self.is_search_tree()
                    &&& self.stored_len() == self.view().len()
                    &&& self.has_a_red_pair()
                },
                Err(Invariant::BlackHeightMismatch) => {
                    &&& self.is_linked()
                    &&& self.is_search_tree()
                    &&& self.stored_len() == self.view().len()
                    &&& self.measured_height() is Err
                },
                Err(Invariant::FreeListCorrupt) => {
                    &&& self.is_linked()
                    &&& self.is_search_tree()
                    &&& self.stored_len() == self.view().len()
                    &&& self.measured_height() is Ok
                    &&& !self.slots_are_accounted()
                },
                Ok(()) => {
                    &&& self.root_in_range()
                    &&& self.root_is_black()
                    &&& self.root_is_topmost()
                    &&& self.is_linked()
                    &&& self.is_search_tree()
                    &&& self.stored_len() == self.view().len()
                    &&& self.measured_height() is Ok
                    &&& self.slots_are_accounted()
                },
            },
    {
        if let Err(why) = self.measured_height() {
            lemma_height_faults(self.nodes@, self.root, N as nat);
        }
    }

    /// Somewhere in the arena a red slot has a red child.
    pub closed spec fn has_a_red_pair(self) -> bool {
        exists|h: Handle| is_red_pair(self.nodes@, h)
    }

    /// A tree built through its operations violates nothing, and a tree that violates
    /// nothing, with every node red or black, is one that the operations work on.
    pub proof fn law_check_decides_well_formedness(self)
        requires
            N <= u32::MAX,
        ensures
            self.wf() <==> self.first_violation() is Ok && self.colors_are_valid(),
    {
        let nodes = self.nodes@;
        if self.wf() {
            let (g, free) = self.description();
            assert(self.described_by(g, free));
            self.lemma_described(g, free);
            self.lemma_wf();
            lemma_order_fits(nodes, self.root, g);
            if self.root != NIL {
                lemma_balanced_height(nodes, self.root, g, self.root, N as nat);
            }
            assert(free_chain(nodes, self.free_head, free));
            assert forall|i: int| 0 <= i < self.order().len() implies {
                let color = nodes[#[trigger] self.order()[i] - 1].color;
                color == RED || color == BLACK
            } by {
                assert(g.label(g.order[i]).pos == i);
                assert(g.live(g.order[i]));
                assert(node_balanced(nodes, g, g.order[i]));
            }
        }
        if self.first_violation() is Ok && self.colors_are_valid() {
            let g0 = self.layout();
            self.lemma_linked(g0);
            lemma_order_fits(nodes, self.root, g0);
            let g = Layout {
                order: g0.order,
                labels: Seq::new(
                    g0.labels.len(),
                    |i: int|
                        Label {
                            height: black_height(nodes, (i + 1) as Handle, N as nat)->Ok_0,
                            ..g0.labels[i]
                        },
                ),
            };
            lemma_same_links(nodes, nodes, self.root, g0, g);
            assert forall|h: Handle| #[trigger] g.live(h) implies {
                &&& g0.live(h)
                &&& black_height(nodes, h, N as nat) == Ok::<int, Invariant>(g.label(h).height)
            } by {
                assert(node_linked(nodes, self.root, g0, h));
                assert((h - 1 + 1) as Handle == h);
                lemma_height_of(nodes, self.root, g0, self.root, h);
            }
            assert forall|h: Handle| g.live(h) implies node_balanced(nodes, g, h) && node_red_ok(
                nodes,
                h,
                NIL,
            ) by {
                self.lemma_height_local(g0, g, h);
            }
            assert forall|h: Handle| g.live(h) implies #[trigger] node_balanced(nodes, g, h) by {}
            assert forall|h: Handle| g.live(h) implies #[trigger] node_red_ok(nodes, h, NIL) by {}
            let free = self.free_list();
            assert(free_chain(nodes, self.free_head, free));
            let v = self.view();
            assert(v.order == g.order);
            assert forall|h: Handle| #[trigger] g.live(h) implies h <= self.bump by {
                assert(g.order[g.label(h).pos] == h);
            }
            assert forall|i: int| 0 <= i < free.len() implies 1 <= #[trigger] free[i] <= self.bump
                && !g.live(free[i]) by {
                if g.live(free[i]) {
                    assert(g.order[g.label(free[i]).pos] == free[i]);
                    assert(v.order.contains(v.free[i]));
                }
            }
            assert(self.described_by(g, free));
            self.lemma_described(g, free);
        }
    }

    proof fn lemma_height_local(self, g0: Layout, g: Layout, h: Handle)
        requires
            linked(self.nodes@, self.root, g0),
            linked(self.nodes@, self.root, g),
            g0.order == g.order,
            g.order.len() <= N,
            g.order == self.order(),
            self.colors_are_valid(),
            g.live(h),
            forall|x: Handle| #[trigger]
                g.live(x) ==> g0.live(x) && black_height(self.nodes@, x, N as nat) == Ok::<
                    int,
                    Invariant,
                >(g.label(x).height),
        ensures
            node_balanced(self.nodes@, g, h),
            node_red_ok(self.nodes@, h, NIL),
    {
        let nodes = self.nodes@;
        assert(node_linked(nodes, self.root, g, h));
        let left = nodes[h - 1].left;
        let right = nodes[h - 1].right;
        let less = (N - 1) as nat;
        assert(self.order()[g.label(h).pos] == h);
        if left != NIL {
            assert(g.live(left));
            assert(node_linked(nodes, self.root, g, left));
            assert(self.order()[g.label(left).pos] == left);
            lemma_linked_grows(nodes, self.root, g, left, less);
            lemma_fuel(nodes, left, h, less, N as nat);
        }
        if right != NIL {
            assert(g.live(right));
            assert(node_linked(nodes, self.root, g, right));
            assert(self.order()[g.label(right).pos] == right);
            lemma_linked_grows(nodes, self.root, g, right, less);
            lemma_fuel(nodes, right, h, less, N as nat);
        }
        assert(black_height(nodes, left, less) == Ok::<int, Invariant>(g.height_of(left)));
        assert(black_height(nodes, right, less) == Ok::<int, Invariant>(g.height_of(right)));
        lemma_height_positive(nodes, h, N as nat);
    }

    /// Checks every red-black and arena invariant.
    ///
    /// O(n log n) and allocation-free. Intended for tests and fuzz harnesses; far too
    /// slow for a production instruction, though cheap enough for a debug-build
    /// assertion. A link out of range counts as one that no child answers.
    ///
    /// # Errors
    ///
    /// The first [`Invariant`] found violated.
    pub fn check(&self) -> (result: Result<(), Invariant>)
        requires
            N <= u32::MAX,
        ensures
            result == self.first_violation(),
    {
        if self.root as usize > N {
            return Err(Invariant::ParentPointerMismatch);
        }
        if self.color_of(self.root) != BLACK {
            return Err(Invariant::RootNotBlack);
        }
        if self.parent_of(self.root) != NIL {
            return Err(Invariant::RootParentNotNil);
        }
        proof {
            lemma_linked_iff_grows(self.nodes@, self.root);
        }
        if !self.check_links(self.root, NIL, N) {
            return Err(Invariant::ParentPointerMismatch);
        }
        let (ordered, reachable) = self.check_ordering();
        if !ordered {
            return Err(Invariant::BstOrderViolation);
        }
        if reachable != self.len as usize {
            return Err(Invariant::LenMismatch);
        }
        match self.check_black_height(self.root, Ghost(NIL), Ghost(N as nat)) {
            Err(violation) => Err(violation),
            Ok(_) => if self.check_free_list() {
                Ok(())
            } else {
                Err(Invariant::FreeListCorrupt)
            },
        }
    }

    /// Whether every link below `handle` is answered by its child, to a depth of `fuel`.
    fn check_links(&self, handle: Handle, parent: Handle, fuel: usize) -> (sound: bool)
        ensures
            sound == grows(self.nodes@, handle, parent, fuel as nat),
        decreases fuel,
    {
        if handle == NIL {
            return true;
        }
        if fuel == 0 || handle as usize > N {
            return false;
        }
        let left = self.node(handle).left;
        let right = self.node(handle).right;
        if self.node(handle).parent != parent || (left != NIL && left == right) {
            return false;
        }
        self.check_links(left, handle, fuel - 1) && self.check_links(right, handle, fuel - 1)
    }

    /// One in-order walk: whether keys ascend strictly, and the number of nodes if so.
    fn check_ordering(&self) -> (result: (bool, usize))
        requires
            self.is_linked(),
        ensures
            result.0 == self.is_search_tree(),
            result.0 ==> result.1 == self.view().len(),
    {
        let ghost order = self.order();
        let mut count: usize = 0;
        let mut previous = NIL;
        let mut cursor = self.min_handle();
        proof {
            self.lemma_is_linked();
            self.lemma_linked(self.layout());
            lemma_order_fits(self.nodes@, self.root, self.layout());
        }
        while cursor != NIL
            invariant
                self.is_linked(),
                order == self.order(),
                order.len() <= N,
                self.view().has_valid_handles(),
                self.view().order == order,
                self.view().capacity() == N,
                count <= order.len(),
                cursor == (if count < order.len() {
                    order[count as int]
                } else {
                    NIL
                }),
                previous == (if count > 0 {
                    order[count - 1]
                } else {
                    NIL
                }),
                forall|i: int, j: int|
                    0 <= i < j < count ==> self.nodes@[#[trigger] order[i] - 1].key.rank()
                        < self.nodes@[#[trigger] order[j] - 1].key.rank(),
            decreases order.len() - count,
        {
            proof {
                assert(1 <= self.view().order[count as int] <= N);
                if count > 0 {
                    assert(1 <= self.view().order[count - 1] <= N);
                }
            }
            if previous != NIL && !self.node(previous).key.precedes(&self.node(cursor).key) {
                proof {
                    let a = self.nodes@[order[count - 1] - 1].key.rank();
                    let b = self.nodes@[order[count as int] - 1].key.rank();
                    assert(!(a < b));
                }
                return (false, count);
            }
            proof {
                assert forall|i: int, j: int| 0 <= i < j < count + 1 implies self.nodes@[
                #[trigger] order[i] - 1].key.rank() < self.nodes@[#[trigger] order[j]
                    - 1].key.rank() by {
                    if j == count && i < count - 1 {
                        assert(self.nodes@[order[i] - 1].key.rank() < self.nodes@[order[count - 1]
                            - 1].key.rank());
                    }
                }
                assert(order.contains(cursor));
            }
            previous = cursor;
            cursor = self.successor(cursor);
            count = count + 1;
        }
        (true, count)
    }

    /// The black height of the subtree at `handle`, checking the red-red and
    /// equal-black-height properties on the way.
    fn check_black_height(
        &self,
        handle: Handle,
        Ghost(parent): Ghost<Handle>,
        Ghost(fuel): Ghost<nat>,
    ) -> (result: Result<u64, Invariant>)
        requires
            grows(self.nodes@, handle, parent, fuel),
            fuel <= N <= u32::MAX,
        ensures
            match result {
                Ok(height) => black_height(self.nodes@, handle, fuel) == Ok::<int, Invariant>(
                    height as int,
                ) && height <= fuel + 1,
                Err(e) => black_height(self.nodes@, handle, fuel) == Err::<int, Invariant>(e),
            },
        decreases fuel,
    {
        if handle == NIL {
            return Ok(1);
        }
        let ghost less = (fuel - 1) as nat;
        let left = self.node(handle).left;
        let right = self.node(handle).right;
        proof {
            assert(grows(self.nodes@, left, handle, less));
            assert(grows(self.nodes@, right, handle, less));
        }
        if self.color_of(handle) == RED && (self.color_of(left) == RED || self.color_of(right)
            == RED) {
            return Err(Invariant::RedRedViolation);
        }
        let left_height = match self.check_black_height(left, Ghost(handle), Ghost(less)) {
            Ok(height) => height,
            Err(violation) => {
                return Err(violation);
            },
        };
        let right_height = match self.check_black_height(right, Ghost(handle), Ghost(less)) {
            Ok(height) => height,
            Err(violation) => {
                return Err(violation);
            },
        };
        if left_height != right_height {
            return Err(Invariant::BlackHeightMismatch);
        }
        if self.color_of(handle) == BLACK {
            Ok(left_height + 1)
        } else {
            Ok(left_height)
        }
    }

    /// Free slots plus live nodes must exactly account for everything the bump pointer
    /// handed out — a leak or a double-free shows up here as a mismatch.
    fn check_free_list(&self) -> (sound: bool)
        requires
            self.is_search_tree(),
            self.stored_len() == self.view().len(),
            N <= u32::MAX,
        ensures
            sound == self.slots_are_accounted(),
    {
        let ghost v = self.view();
        let ghost nodes = self.nodes@;
        proof {
            self.lemma_search_tree();
            self.lemma_is_linked();
            self.lemma_linked(self.layout());
            lemma_order_fits(nodes, self.root, self.layout());
        }
        if self.bump as usize > N || !self.live_below_bump() {
            return false;
        }
        let ghost mut seen = Seq::<Handle>::empty();
        let mut free: usize = 0;
        let mut cursor = self.free_head;
        while cursor != NIL
            invariant
                self.is_search_tree(),
                v == self.view(),
                v.is_sorted(),
                v.has_valid_handles(),
                v.capacity() == N,
                nodes == self.nodes@,
                self.bump <= N <= u32::MAX,
                free == seen.len(),
                free <= N,
                forall|i: int|
                    0 <= i < seen.len() ==> {
                        &&& 1 <= #[trigger] seen[i] <= self.bump
                        &&& !v.order.contains(seen[i])
                        &&& nodes[seen[i] - 1].left == (if i + 1 < seen.len() {
                            seen[i + 1]
                        } else {
                            cursor
                        })
                    },
                self.free_head == (if seen.len() == 0 {
                    cursor
                } else {
                    seen[0]
                }),
                forall|chain: Seq<Handle>| #[trigger]
                    free_chain(nodes, self.free_head, chain) ==> {
                        &&& free <= chain.len()
                        &&& cursor == (if free < chain.len() {
                            chain[free as int]
                        } else {
                            NIL
                        })
                    },
            decreases N - free,
        {
            if cursor as usize > self.bump as usize || free == N {
                proof {
                    if self.slots_are_accounted() {
                        let chain = self.free_list();
                        assert(free_chain(nodes, self.free_head, chain));
                        assert(chain[free as int] == cursor);
                        assert(v.free[free as int] <= v.bump);
                    }
                }
                return false;
            }
            let owner = self.find(&self.node(cursor).key);
            if owner == cursor {
                proof {
                    assert(v.order.contains(cursor)) by {
                        v.lemma_position_exists(v.keys[cursor - 1]);
                    }
                    if self.slots_are_accounted() {
                        let chain = self.free_list();
                        assert(free_chain(nodes, self.free_head, chain));
                        assert(v.free[free as int] == cursor);
                    }
                }
                return false;
            }
            proof {
                if v.order.contains(cursor) {
                    let i = choose|i: int| 0 <= i < v.order.len() && v.order[i] == cursor;
                    v.lemma_position_present(v.key_at(i), i);
                }
                seen = seen.push(cursor);
                assert forall|chain: Seq<Handle>| #[trigger]
                    free_chain(nodes, self.free_head, chain) implies {
                    &&& free + 1 <= chain.len()
                    &&& nodes[cursor - 1].left == (if free + 1 < chain.len() {
                        chain[free + 1]
                    } else {
                        NIL
                    })
                } by {
                    assert(chain[free as int] == cursor);
                }
            }
            free = free + 1;
            cursor = self.node(cursor).left;
        }
        proof {
            assert(free_chain(nodes, self.free_head, seen));
            lemma_free_unique(nodes, self.free_head, self.free_list(), seen);
            assert forall|i: int, j: int|
                0 <= i < seen.len() && 0 <= j < seen.len() && i != j implies seen[i]
                != seen[j] by {
                if i < j {
                    lemma_chain_distinct(nodes, self.free_head, seen, i, j);
                } else {
                    lemma_chain_distinct(nodes, self.free_head, seen, j, i);
                }
            }
            assert(v.free == seen);
        }
        free as u64 + self.len as u64 == self.bump as u64
    }

    /// Whether every live node sits in a slot that the bump pointer handed out.
    fn live_below_bump(&self) -> (sound: bool)
        requires
            self.is_linked(),
        ensures
            sound == (forall|i: int|
                0 <= i < self.view().order.len() ==> #[trigger] self.view().order[i]
                    <= self.view().bump),
    {
        let ghost order = self.order();
        let ghost mut count: int = 0;
        let mut cursor = self.min_handle();
        proof {
            self.lemma_is_linked();
        }
        while cursor != NIL
            invariant
                self.is_linked(),
                order == self.order(),
                self.view().has_valid_handles(),
                self.view().order == order,
                0 <= count <= order.len(),
                cursor == (if count < order.len() {
                    order[count]
                } else {
                    NIL
                }),
                forall|i: int| 0 <= i < count ==> #[trigger] order[i] <= self.bump,
            decreases order.len() - count,
        {
            if cursor > self.bump {
                proof {
                    assert(self.view().order[count] > self.view().bump);
                }
                return false;
            }
            proof {
                assert(order.contains(cursor));
            }
            cursor = self.successor(cursor);
            proof {
                count = count + 1;
            }
        }
        proof {
            if count < order.len() {
                assert(1 <= self.view().order[count]);
            }
        }
        true
    }
}

/// A tree has no more nodes than the arena has slots.
proof fn lemma_order_fits<K, V>(nodes: Seq<Node<K, V>>, root: Handle, g: Layout)
    requires
        linked(nodes, root, g),
    ensures
        g.order.len() <= nodes.len(),
{
    assert forall|i: int, j: int|
        0 <= i < g.order.len() && 0 <= j < g.order.len() && i != j implies g.order[i]
        != g.order[j] by {
        assert(g.label(g.order[i]).pos == i);
        assert(g.label(g.order[j]).pos == j);
    }
    lemma_pigeonhole(g.order, nodes.len());
}

/// Heights count the missing child, so they are positive.
proof fn lemma_height_positive<K, V>(nodes: Seq<Node<K, V>>, h: Handle, fuel: nat)
    ensures
        black_height(nodes, h, fuel) is Ok ==> black_height(nodes, h, fuel)->Ok_0 >= 1,
    decreases fuel,
{
    if h != NIL && fuel > 0 {
        lemma_height_positive(nodes, nodes[h - 1].left, (fuel - 1) as nat);
        lemma_height_positive(nodes, nodes[h - 1].right, (fuel - 1) as nat);
    }
}

} // verus!
