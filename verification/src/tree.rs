use vstd::prelude::*;
use vstd::seq_lib::*;

verus! {

/// One syntactic unit of a syntax tree: a grammar-defined kind label, a
/// 0-based start position, and the node's children in left-to-right source
/// order, given as indices into the owning tree's node arena.
pub struct NodeData {
    pub kind: String,
    pub row: usize,
    pub col: usize,
    pub children: Vec<usize>,
}

/// A concrete syntax tree, stored as a node arena whose root is index 0.
/// Well-formedness (`wf`) demands that every child index point strictly past
/// its parent and into the arena, which makes the structure acyclic, and
/// that the child runs tile the arena, so no slot is shared or orphaned.
pub struct SyntaxTree {
    pub nodes: Vec<NodeData>,
}

/// The mathematical image of one walk record: a depth and a kind label
/// together with the 1-based display position.
pub ghost struct RecModel {
    pub depth: nat,
    pub kind: Seq<char>,
    pub row: nat,
    pub col: nat,
}

/// One record of the walker's output: the node's depth below the root, its
/// kind label, and its start position translated to 1-based row and column.
/// Positions are 64-bit so that the translation of a grammar's 32-bit
/// coordinates can never overflow, whatever the machine's word size.
pub struct WalkRecord {
    pub depth: usize,
    pub kind: String,
    pub row: u64,
    pub col: u64,
}

impl View for WalkRecord {
    type V = RecModel;

    open spec fn view(&self) -> RecModel {
        RecModel {
            depth: self.depth as nat,
            kind: self.kind@,
            row: self.row as nat,
            col: self.col as nat,
        }
    }
}

/// The record models of a vector of walk records, in order.
pub open spec fn models(s: Seq<WalkRecord>) -> Seq<RecModel> {
    s.map_values(|w: WalkRecord| w@)
}

/// The first arena slot available to the children of node `i`: slot 0 is
/// the root's, and the children of nodes `0..i` claim the following slots
/// in arena order, so node `i`'s children begin where node `i - 1`'s end.
pub open spec fn slots_before(nodes: Seq<NodeData>, i: int) -> int
    decreases i,
{
    if i <= 0 {
        1
    } else {
        slots_before(nodes, i - 1) + nodes[i - 1].children@.len()
    }
}

/// Appending a node does not move the slots claimed before index `i`.
pub proof fn lemma_slots_before_push(nodes: Seq<NodeData>, nd: NodeData, i: int)
    requires
        0 <= i <= nodes.len(),
    ensures
        slots_before(nodes.push(nd), i) == slots_before(nodes, i),
    decreases i,
{
    if i > 0 {
        lemma_slots_before_push(nodes, nd, i - 1);
    }
}

impl SyntaxTree {
    /// Bounds that one node must satisfy: its children are exactly the
    /// contiguous run of slots that starts where the previous node's
    /// children end, each strictly past the node itself and inside the
    /// arena, and its position is within the 32-bit range of the native
    /// coordinates, so the walker's `+ 1` translation cannot overflow.
    pub open spec fn node_wf(self, i: int) -> bool {
        &&& self.nodes@[i].row < 0x1_0000_0000
        &&& self.nodes@[i].col < 0x1_0000_0000
        &&& forall|j: int|
            0 <= j < self.nodes@[i].children@.len() ==> #[trigger] self.nodes@[i].children@[j]
                == slots_before(self.nodes@, i) + j && i < self.nodes@[i].children@[j]
                && self.nodes@[i].children@[j] < self.nodes@.len()
    }

    /// Well-formedness of the whole tree: a root exists, every node is
    /// within bounds, and the child runs tile the arena exactly — every
    /// slot after the root is the child of exactly one earlier node.
    pub open spec fn wf(self) -> bool {
        &&& self.nodes@.len() >= 1
        &&& forall|i: int| 0 <= i < self.nodes@.len() ==> #[trigger] self.node_wf(i)
        &&& slots_before(self.nodes@, self.nodes@.len() as int) == self.nodes@.len()
    }

    /// The record that the walker emits for node `i` at the given depth.
    pub open spec fn rec_of(self, i: int, depth: nat) -> RecModel {
        RecModel {
            depth,
            kind: self.nodes@[i].kind@,
            row: (self.nodes@[i].row + 1) as nat,
            col: (self.nodes@[i].col + 1) as nat,
        }
    }

    /// The preorder traversal of the subtree rooted at node `i`: the node's
    /// own record first, then the children's subtrees left to right.
    pub open spec fn pre_node(self, i: int, depth: nat) -> Seq<RecModel>
        decreases self.nodes@.len() - i, self.nodes@[i].children@.len() + 1,
        when self.wf() && 0 <= i < self.nodes@.len()
    {
        seq![self.rec_of(i, depth)] + self.pre_kids(i, 0, (depth + 1) as nat)
    }

    /// The concatenated preorder traversals of children `j..` of node `i`.
    pub open spec fn pre_kids(self, i: int, j: int, depth: nat) -> Seq<RecModel>
        decreases self.nodes@.len() - i, self.nodes@[i].children@.len() - j,
        when self.wf() && 0 <= i < self.nodes@.len() && 0 <= j via Self::pre_kids_decreases
    {
        if j < self.nodes@[i].children@.len() {
            self.pre_node(self.nodes@[i].children@[j] as int, depth) + self.pre_kids(i, j + 1, depth)
        } else {
            Seq::empty()
        }
    }

    #[via_fn]
    proof fn pre_kids_decreases(self, i: int, j: int, depth: nat) {
        if self.wf() && 0 <= i < self.nodes@.len() && 0 <= j {
            if j < self.nodes@[i].children@.len() {
                assert(self.node_wf(i));
            }
        }
    }

    /// The full preorder traversal of the tree, root at depth 0.
    pub open spec fn preorder(self) -> Seq<RecModel> {
        self.pre_node(0, 0)
    }

    /// What one pending work-list entry `(index, depth)` must satisfy.
    spec fn entry_ok(self, e: (usize, usize)) -> bool {
        e.0 < self.nodes@.len() && e.1 <= e.0
    }

    /// The records still owed by a work list, top of the stack first.
    spec fn stack_pre(self, s: Seq<(usize, usize)>) -> Seq<RecModel>
        decreases s.len(),
    {
        if s.len() == 0 {
            Seq::empty()
        } else {
            self.pre_node(s.last().0 as int, s.last().1 as nat) + self.stack_pre(s.drop_last())
        }
    }

    /// The number of nodes in the subtree rooted at `i`.
    spec fn sub_size(self, i: int) -> nat
        decreases self.nodes@.len() - i, self.nodes@[i].children@.len() + 1,
        when self.wf() && 0 <= i < self.nodes@.len()
    {
        1 + self.kid_sizes(i, 0)
    }

    /// The number of nodes in the subtrees of children `j..` of node `i`.
    spec fn kid_sizes(self, i: int, j: int) -> nat
        decreases self.nodes@.len() - i, self.nodes@[i].children@.len() - j,
        when self.wf() && 0 <= i < self.nodes@.len() && 0 <= j via Self::kid_sizes_decreases
    {
        if j < self.nodes@[i].children@.len() {
            self.sub_size(self.nodes@[i].children@[j] as int) + self.kid_sizes(i, j + 1)
        } else {
            0
        }
    }

    #[via_fn]
    proof fn kid_sizes_decreases(self, i: int, j: int) {
        if self.wf() && 0 <= i < self.nodes@.len() && 0 <= j {
            if j < self.nodes@[i].children@.len() {
                assert(self.node_wf(i));
            }
        }
    }

    /// The number of nodes in the subtrees rooted at each of `lo..hi`.
    spec fn forest_size(self, lo: int, hi: int) -> nat
        decreases hi - lo,
    {
        if lo < hi {
            self.sub_size(lo) + self.forest_size(lo + 1, hi)
        } else {
            0
        }
    }

    proof fn lemma_pre_node_len(self, i: int, depth: nat)
        requires
            self.wf(),
            0 <= i < self.nodes@.len(),
        ensures
            self.pre_node(i, depth).len() == self.sub_size(i),
        decreases self.nodes@.len() - i, self.nodes@[i].children@.len() + 1,
    {
        self.lemma_pre_kids_len(i, 0, (depth + 1) as nat);
    }

    proof fn lemma_pre_kids_len(self, i: int, j: int, depth: nat)
        requires
            self.wf(),
            0 <= i < self.nodes@.len(),
            0 <= j,
        ensures
            self.pre_kids(i, j, depth).len() == self.kid_sizes(i, j),
        decreases self.nodes@.len() - i, self.nodes@[i].children@.len() - j,
    {
        if j < self.nodes@[i].children@.len() {
            assert(self.node_wf(i));
            self.lemma_pre_node_len(self.nodes@[i].children@[j] as int, depth);
            self.lemma_pre_kids_len(i, j + 1, depth);
        }
    }

    proof fn lemma_forest_concat(self, lo: int, mid: int, hi: int)
        requires
            lo <= mid <= hi,
        ensures
            self.forest_size(lo, hi) == self.forest_size(lo, mid) + self.forest_size(mid, hi),
        decreases mid - lo,
    {
        if lo < mid {
            self.lemma_forest_concat(lo + 1, mid, hi);
        }
    }

    proof fn lemma_kid_sizes_forest(self, i: int, j: int)
        requires
            self.wf(),
            0 <= i < self.nodes@.len(),
            0 <= j <= self.nodes@[i].children@.len(),
        ensures
            self.kid_sizes(i, j) == self.forest_size(
                slots_before(self.nodes@, i) + j,
                slots_before(self.nodes@, i) + self.nodes@[i].children@.len(),
            ),
        decreases self.nodes@[i].children@.len() - j,
    {
        if j < self.nodes@[i].children@.len() {
            assert(self.node_wf(i));
            self.lemma_kid_sizes_forest(i, j + 1);
        }
    }

    /// If the slot run ever falls back onto its own node, it stays behind
    /// for the rest of the arena and cannot reach the arena's end.
    proof fn lemma_slots_frozen(self, k: int, p: int)
        requires
            self.wf(),
            0 <= k < self.nodes@.len(),
            slots_before(self.nodes@, k) <= k,
            k <= p <= self.nodes@.len(),
        ensures
            slots_before(self.nodes@, p) <= p,
            p < self.nodes@.len() || slots_before(self.nodes@, p) < p,
        decreases p - k,
    {
        if p > k {
            self.lemma_slots_frozen(k, p - 1);
            assert(self.node_wf(p - 1));
            if self.nodes@[p - 1].children@.len() > 0 {
                assert(self.nodes@[p - 1].children@[0] == slots_before(self.nodes@, p - 1));
                assert(false);
            }
        } else {
            assert(p < self.nodes@.len());
        }
    }

    /// Every node's child run starts strictly past the node itself.
    proof fn lemma_slots_exceed(self, k: int)
        requires
            self.wf(),
            0 <= k < self.nodes@.len(),
        ensures
            slots_before(self.nodes@, k) > k,
    {
        if slots_before(self.nodes@, k) <= k {
            self.lemma_slots_frozen(k, self.nodes@.len() as int);
            assert(false);
        }
    }

    /// The forest of the nodes between `k` and its child-run start covers
    /// the rest of the arena exactly once.
    proof fn lemma_forest_covers(self, k: int)
        requires
            self.wf(),
            0 <= k <= self.nodes@.len(),
            k == self.nodes@.len() || slots_before(self.nodes@, k) > k,
        ensures
            self.forest_size(k, slots_before(self.nodes@, k)) == self.nodes@.len() - k,
        decreases self.nodes@.len() - k,
    {
        let nn = self.nodes@.len() as int;
        if k == nn {
        } else {
            let start_k = slots_before(self.nodes@, k);
            let cnt = self.nodes@[k].children@.len() as int;
            if k + 1 < nn {
                self.lemma_slots_exceed(k + 1);
            }
            self.lemma_forest_covers(k + 1);
            self.lemma_kid_sizes_forest(k, 0);
            assert(self.sub_size(k) == 1 + self.forest_size(start_k, start_k + cnt));
            self.lemma_forest_concat(k + 1, start_k, start_k + cnt);
            assert(self.forest_size(k, start_k) == self.sub_size(k) + self.forest_size(
                k + 1,
                start_k,
            ));
        }
    }

    /// The number of nodes the tree holds.
    pub fn node_count(&self) -> (n: usize)
        ensures
            n == self.nodes@.len(),
    {
        self.nodes.len()
    }

    /// The number of children of the root node.
    pub fn root_child_count(&self) -> (n: usize)
        requires
            self.wf(),
        ensures
            n == self.nodes@[0].children@.len(),
    {
        self.nodes[0].children.len()
    }

    /// The kind label of the root node.
    pub fn root_kind(&self) -> (r: &str)
        requires
            self.wf(),
        ensures
            r@ == self.nodes@[0].kind@,
    {
        self.nodes[0].kind.as_str()
    }
}

proof fn lemma_models_push(s: Seq<WalkRecord>, w: WalkRecord)
    ensures
        models(s.push(w)) == models(s).push(w@),
{
    assert(models(s.push(w)) =~= models(s).push(w@));
}

/// Walks the tree in preorder with an explicit work list, so that the call
/// stack stays shallow whatever the nesting depth of the input. The result
/// is exactly the tree's preorder record sequence: each node is visited
/// before its children, children left to right, positions 1-based.
pub fn walk(t: &SyntaxTree) -> (r: Vec<WalkRecord>)
    requires
        t.wf(),
    ensures
        models(r@) == t.preorder(),
{
    let mut out: Vec<WalkRecord> = Vec::new();
    let mut stack: Vec<(usize, usize)> = Vec::new();
    stack.push((0, 0));
    proof {
        let ghost s0 = stack@;
        assert(s0.drop_last() =~= Seq::<(usize, usize)>::empty());
        assert(t.stack_pre(s0.drop_last()) =~= Seq::<RecModel>::empty());
        assert(t.stack_pre(s0) == t.pre_node(0, 0) + t.stack_pre(s0.drop_last()));
        assert(models(out@) =~= Seq::<RecModel>::empty());
        assert(models(out@) + t.stack_pre(s0) =~= t.preorder());
    }
    while stack.len() > 0
        invariant
            t.wf(),
            forall|q: int| 0 <= q < stack@.len() ==> t.entry_ok(#[trigger] stack@[q]),
            models(out@) + t.stack_pre(stack@) == t.preorder(),
        decreases t.stack_pre(stack@).len(),
    {
        let ghost stack_before = stack@;
        let ghost out_before = out@;
        let e = stack.pop().unwrap();
        let i: usize = e.0;
        let d: usize = e.1;
        let ghost rest = stack@;
        proof {
            assert(t.stack_pre(stack_before) == t.pre_node(i as int, d as nat) + t.stack_pre(rest));
            assert(t.node_wf(i as int));
        }
        let w = WalkRecord {
            depth: d,
            kind: t.nodes[i].kind.clone(),
            row: (t.nodes[i].row as u64) + 1,
            col: (t.nodes[i].col as u64) + 1,
        };
        out.push(w);
        proof {
            lemma_models_push(out_before, w);
            assert(w@ == t.rec_of(i as int, d as nat));
        }
        let cnt: usize = t.nodes[i].children.len();
        let mut j: usize = cnt;
        proof {
            assert(t.pre_kids(i as int, j as int, (d + 1) as nat) =~= Seq::<RecModel>::empty());
        }
        while j > 0
            invariant
                t.wf(),
                i < t.nodes@.len(),
                d <= i,
                t.node_wf(i as int),
                cnt == t.nodes@[i as int].children@.len(),
                0 <= j <= cnt,
                forall|q: int| 0 <= q < stack@.len() ==> t.entry_ok(#[trigger] stack@[q]),
                t.stack_pre(stack@) == t.pre_kids(i as int, j as int, (d + 1) as nat)
                    + t.stack_pre(rest),
            decreases j,
        {
            j -= 1;
            let ghost stack_mid = stack@;
            let c: usize = t.nodes[i].children[j];
            stack.push((c, d + 1));
            proof {
                assert(stack@.drop_last() =~= stack_mid);
                assert(t.stack_pre(stack@) == t.pre_node(c as int, (d + 1) as nat)
                    + t.stack_pre(stack_mid));
                assert(t.pre_kids(i as int, j as int, (d + 1) as nat) == t.pre_node(
                    c as int,
                    (d + 1) as nat,
                ) + t.pre_kids(i as int, j + 1, (d + 1) as nat));
                assert(t.stack_pre(stack@) =~= t.pre_kids(i as int, j as int, (d + 1) as nat)
                    + t.stack_pre(rest));
            }
        }
        proof {
            assert(t.pre_node(i as int, d as nat) == seq![t.rec_of(i as int, d as nat)]
                + t.pre_kids(i as int, 0, (d + 1) as nat));
            assert(models(out@) + t.stack_pre(stack@) =~= t.preorder());
        }
    }
    proof {
        assert(t.stack_pre(stack@) =~= Seq::<RecModel>::empty());
        assert(models(out@) =~= t.preorder());
    }
    out
}

/// Law: walking is deterministic. The walker's output is a pure function of
/// the tree, so any two walks of the same tree yield the same record
/// sequence, byte for byte.
pub proof fn lemma_walk_deterministic(t: SyntaxTree, r1: Seq<RecModel>, r2: Seq<RecModel>)
    requires
        r1 == t.preorder(),
        r2 == t.preorder(),
    ensures
        r1 == r2,
{
}

/// Law: a parent is visited before its children. The subtree sequence of
/// node `i` begins with the node's own record; everything after it is the
/// children's subtrees, left to right.
pub proof fn lemma_preorder_parent_first(t: SyntaxTree, i: int, depth: nat)
    requires
        t.wf(),
        0 <= i < t.nodes@.len(),
    ensures
        t.pre_node(i, depth).len() >= 1,
        t.pre_node(i, depth)[0] == t.rec_of(i, depth),
        t.pre_node(i, depth).skip(1) == t.pre_kids(i, 0, (depth + 1) as nat),
{
    assert(t.pre_node(i, depth).skip(1) =~= t.pre_kids(i, 0, (depth + 1) as nat));
}

/// Law: siblings are visited left to right. Among the records owed for
/// children `j..`, the whole subtree of child `j` comes before the subtrees
/// of its right siblings.
pub proof fn lemma_preorder_sibling_order(t: SyntaxTree, i: int, j: int, depth: nat)
    requires
        t.wf(),
        0 <= i < t.nodes@.len(),
        0 <= j < t.nodes@[i].children@.len(),
    ensures
        t.pre_kids(i, j, depth) == t.pre_node(t.nodes@[i].children@[j] as int, depth) + t.pre_kids(
            i,
            j + 1,
            depth,
        ),
{
    assert(t.node_wf(i));
}

/// Law: one record per node. A walk of a well-formed tree emits exactly
/// one record for each node of the arena: no node is skipped and none is
/// visited twice.
pub proof fn lemma_walk_counts_each_node_once(t: SyntaxTree)
    requires
        t.wf(),
    ensures
        t.preorder().len() == t.nodes@.len(),
{
    t.lemma_pre_node_len(0, 0);
    t.lemma_slots_exceed(0);
    t.lemma_forest_covers(0);
    assert(slots_before(t.nodes@, 0) == 1);
    assert(t.forest_size(1, 1) == 0);
    assert(t.forest_size(0, 1) == t.sub_size(0) + t.forest_size(1, 1));
}

} // verus!
