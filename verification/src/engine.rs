use vstd::prelude::*;
use crate::error::Error;
use crate::grammar::{LoadedLanguage, language_compatible, parser_new, parser_ready,
    parser_set_language};
use crate::tree::{lemma_slots_before_push, slots_before, NodeData, SyntaxTree};

verus! {

#[verifier::external_type_specification]
#[verifier::external_body]
pub struct ExTree(tree_sitter::Tree);

#[verifier::external_type_specification]
#[verifier::external_body]
pub struct ExNode<'a>(tree_sitter::Node<'a>);

/// Relies on tree_sitter::Parser::parse: a parser with a language assigned
/// returns a tree for every input, well-formed or not; `None` is possible
/// only before a language has been assigned.
#[verifier::external_body]
fn parser_parse(p: &mut tree_sitter::Parser, source: &str) -> (r: Option<tree_sitter::Tree>)
    ensures
        parser_ready(*old(p)) ==> r is Some,
{
    p.parse(source, None)
}

/// Relies on tree_sitter::Tree::root_node: every tree has a root.
#[verifier::external_body]
fn tree_root<'a>(t: &'a tree_sitter::Tree) -> tree_sitter::Node<'a> {
    t.root_node()
}

/// How many children a node has. A function of the node alone.
pub uninterp spec fn arity_of(n: tree_sitter::Node) -> nat;

/// How many nodes a node's subtree holds, the node itself included. A
/// function of the node alone.
pub uninterp spec fn descendants_of(n: tree_sitter::Node) -> nat;

/// The part of `descendants_of(n)` accounted for by `n` itself and by the
/// subtrees of its first `j` children: one for the node, plus one whole
/// subtree count per child, child by child.
pub uninterp spec fn desc_prefix(n: tree_sitter::Node, j: nat) -> nat;

/// The node's kind label. A function of the node alone.
pub uninterp spec fn kind_of(n: tree_sitter::Node) -> Seq<char>;

/// The node's 0-based start row. A function of the node alone.
pub uninterp spec fn row_of(n: tree_sitter::Node) -> nat;

/// The node's 0-based start column. A function of the node alone.
pub uninterp spec fn col_of(n: tree_sitter::Node) -> nat;

/// Relies on tree_sitter::Node::child_count: each child is itself one of
/// the node's descendants, so the child count falls short of the node's
/// subtree count.
#[verifier::external_body]
fn node_child_count(n: &tree_sitter::Node) -> (c: u32)
    ensures
        c as nat == arity_of(*n),
        (c as nat) < descendants_of(*n),
{
    n.child_count()
}

/// Relies on tree_sitter::Node::descendant_count: the count is one for the
/// node itself plus the counts of its children's subtrees (so it is at
/// least one, the node accounting for the prefix before any child and the
/// whole count once every child is accounted), and it is a 32-bit value in
/// the native representation, so every tree holds fewer than 2^32 nodes.
#[verifier::external_body]
fn node_descendant_count(n: &tree_sitter::Node) -> (c: usize)
    ensures
        c as nat == descendants_of(*n),
        c >= 1,
        c < 0x1_0000_0000,
        c as nat == desc_prefix(*n, arity_of(*n)),
        desc_prefix(*n, 0) + descendants_of(*n) == 1 + c as nat,
{
    n.descendant_count()
}

/// Relies on tree_sitter::Node::child: a child exists exactly for indices
/// below the child count, in left-to-right order; each child's subtree is
/// nonempty and accounts for the next part of the parent's count.
#[verifier::external_body]
fn node_child<'a>(n: &tree_sitter::Node<'a>, i: u32) -> (r: Option<tree_sitter::Node<'a>>)
    ensures
        (i as nat) < arity_of(*n) <==> r is Some,
        r matches Some(c) ==> descendants_of(c) >= 1 && desc_prefix(*n, i as nat + 1)
            == desc_prefix(*n, i as nat) + descendants_of(c),
{
    n.child(i)
}

/// Relies on tree_sitter::Node::kind: the grammar-defined kind label.
#[verifier::external_body]
fn node_kind(n: &tree_sitter::Node) -> (r: String)
    ensures
        r@ == kind_of(*n),
{
    n.kind().to_string()
}

/// Relies on tree_sitter::Node::start_position: the node's 0-based start
/// row and column, 32-bit values in the native representation.
#[verifier::external_body]
fn node_start(n: &tree_sitter::Node) -> (r: (usize, usize))
    ensures
        r.0 as nat == row_of(*n),
        r.1 as nat == col_of(*n),
        r.0 < 0x1_0000_0000,
        r.1 < 0x1_0000_0000,
{
    let p = n.start_position();
    (p.row, p.column)
}

/// The captured arena mirrors a sequence of native nodes slot by slot:
/// each slot holds its node's kind, 0-based position and child count.
pub open spec fn corresponds<'a>(t: SyntaxTree, w: Seq<tree_sitter::Node<'a>>) -> bool {
    &&& w.len() == t.nodes@.len()
    &&& forall|i: int|
        0 <= i < w.len() ==> (#[trigger] t.nodes@[i]).kind@ == kind_of(w[i]) && t.nodes@[i].row
            as nat == row_of(w[i]) && t.nodes@[i].col as nat == col_of(w[i])
            && t.nodes@[i].children@.len() == arity_of(w[i])
}

/// The total subtree count of a run of pending nodes.
spec fn sum_seq(s: Seq<nat>) -> nat
    decreases s.len(),
{
    if s.len() == 0 {
        0
    } else {
        s[0] + sum_seq(s.drop_first())
    }
}

proof fn lemma_sum_push(s: Seq<nat>, x: nat)
    ensures
        sum_seq(s.push(x)) == sum_seq(s) + x,
    decreases s.len(),
{
    assert(sum_seq(s.push(x)) == s.push(x)[0] + sum_seq(s.push(x).drop_first()));
    if s.len() == 0 {
        assert(s.push(x)[0] == x);
        assert(s.push(x).drop_first() =~= Seq::<nat>::empty());
        assert(sum_seq(Seq::<nat>::empty()) == 0);
    } else {
        assert(s.push(x)[0] == s[0]);
        assert(s.push(x).drop_first() =~= s.drop_first().push(x));
        lemma_sum_push(s.drop_first(), x);
        assert(sum_seq(s) == s[0] + sum_seq(s.drop_first()));
    }
}

proof fn lemma_sum_lower(s: Seq<nat>)
    requires
        forall|q: int| 0 <= q < s.len() ==> #[trigger] s[q] >= 1,
    ensures
        sum_seq(s) >= s.len(),
    decreases s.len(),
{
    if s.len() > 0 {
        assert(forall|q: int|
            0 <= q < s.drop_first().len() ==> #[trigger] s.drop_first()[q] >= 1);
        lemma_sum_lower(s.drop_first());
    }
}

/// What must hold of every node already captured while the arena is still
/// growing towards `total` slots: positions leave room for the 1-based
/// translation, and each node's children are exactly the contiguous run of
/// slots after the previous node's, strictly past the node and within the
/// part of the arena that the remaining work will fill.
spec fn capture_wf(nodes: Seq<NodeData>, total: int) -> bool {
    forall|i: int|
        0 <= i < nodes.len() ==> (#[trigger] nodes[i]).row < 0x1_0000_0000 && nodes[i].col
            < 0x1_0000_0000 && (forall|j: int|
            0 <= j < nodes[i].children@.len() ==> #[trigger] nodes[i].children@[j]
                == slots_before(nodes, i) + j && i < nodes[i].children@[j]
                && nodes[i].children@[j] < total)
}

/// Captures a native syntax tree as the library's own tree, breadth first,
/// with a work queue instead of recursion so that the call stack stays
/// shallow whatever the nesting depth. The capture is total: positions and
/// subtree counts are 32-bit in the native representation, so no machine
/// limit can be reached. Every arena slot mirrors a native node's kind,
/// position and child count.
fn snapshot<'t>(tree: &'t tree_sitter::Tree) -> (r: SyntaxTree)
    ensures
        r.wf(),
        exists|w: Seq<tree_sitter::Node<'t>>| corresponds(r, w),
{
    let root: tree_sitter::Node<'t> = tree_root(tree);
    let total: usize = node_descendant_count(&root);
    let mut queue: Vec<tree_sitter::Node<'t>> = Vec::new();
    let mut nodes: Vec<NodeData> = Vec::new();
    let ghost mut dq: Seq<nat> = seq![descendants_of(root)];
    let ghost mut wit: Seq<tree_sitter::Node<'t>> = Seq::empty();
    queue.push(root);
    proof {
        assert(sum_seq(dq) == dq[0] + sum_seq(dq.drop_first()));
        assert(dq.drop_first() =~= Seq::<nat>::empty());
        assert(sum_seq(Seq::<nat>::empty()) == 0);
        assert(sum_seq(dq) == descendants_of(root));
    }
    while queue.len() > 0
        invariant
            total < 0x1_0000_0000,
            dq.len() == queue@.len(),
            forall|q: int| 0 <= q < dq.len() ==> #[trigger] dq[q] == descendants_of(queue@[q])
                && dq[q] >= 1,
            nodes@.len() + sum_seq(dq) == total as nat,
            wit.len() == nodes@.len(),
            forall|i: int| 0 <= i < wit.len() ==> (#[trigger] nodes@[i]).kind@ == kind_of(wit[i])
                && nodes@[i].row as nat == row_of(wit[i]) && nodes@[i].col as nat == col_of(wit[i])
                && nodes@[i].children@.len() == arity_of(wit[i]),
            capture_wf(nodes@, nodes@.len() + queue@.len() as int),
            slots_before(nodes@, nodes@.len() as int) == nodes@.len() + queue@.len(),
        decreases sum_seq(dq),
    {
        let ghost nodes0 = nodes@;
        let ghost queue0 = queue@;
        let ghost dq0 = dq;
        let n = queue.remove(0);
        proof {
            dq = dq.drop_first();
            assert forall|q: int| 0 <= q < dq.len() implies #[trigger] dq[q]
                == descendants_of(queue@[q]) && dq[q] >= 1 by {
                assert(dq0[q + 1] == descendants_of(queue0[q + 1]));
            }
            lemma_sum_lower(dq);
        }
        let ghost q_mid = queue@;
        let ghost rest_sum = sum_seq(dq);
        let idx: usize = nodes.len();
        let d: usize = node_descendant_count(&n);
        proof {
            assert(dq0[0] == descendants_of(n));
            assert(sum_seq(dq0) == dq0[0] + rest_sum);
        }
        let pos = node_start(&n);
        let row: usize = pos.0;
        let col: usize = pos.1;
        let cnt32: u32 = node_child_count(&n);
        let cnt: usize = cnt32 as usize;
        proof {
            // This node accounts for one of the `total` slots and each of
            // its children's subtrees for at least one more, so the run of
            // promised slots stays within the arena's final size.
            assert(idx + d + rest_sum == total);
            assert(q_mid.len() <= rest_sum);
        }
        let base: usize = idx + 1 + queue.len();
        let mut children: Vec<usize> = Vec::new();
        let mut k: usize = 0;
        while k < cnt
            invariant
                base + cnt <= total,
                0 <= k <= cnt,
                children@.len() == k,
                forall|m: int| 0 <= m < k ==> #[trigger] children@[m] == base + m,
            decreases cnt - k,
        {
            children.push(base + k);
            k += 1;
        }
        nodes.push(NodeData { kind: node_kind(&n), row, col, children });
        proof {
            wit = wit.push(n);
        }
        let mut k2: u32 = 0;
        while k2 < cnt32
            invariant
                cnt32 as nat == arity_of(n),
                0 <= k2 <= cnt32,
                queue@.len() == q_mid.len() + k2 as nat,
                dq.len() == queue@.len(),
                forall|q: int| 0 <= q < dq.len() ==> #[trigger] dq[q]
                    == descendants_of(queue@[q]) && dq[q] >= 1,
                sum_seq(dq) + 1 == rest_sum + desc_prefix(n, k2 as nat),
                desc_prefix(n, k2 as nat) >= 1,
            decreases cnt32 - k2,
        {
            let ghost dq_mid = dq;
            let child = node_child(&n, k2).unwrap();
            queue.push(child);
            proof {
                dq = dq.push(descendants_of(child));
                lemma_sum_push(dq_mid, descendants_of(child));
            }
            k2 += 1;
        }
        proof {
            // The count identity: this node's subtree is itself plus its
            // children's subtrees, so the pending total drops by one.
            assert(desc_prefix(n, cnt32 as nat) == descendants_of(n));
            assert(sum_seq(dq) + 1 == rest_sum + descendants_of(n));
            assert(sum_seq(dq) == sum_seq(dq0) - 1);
            // The new node's slots: its children begin right after every
            // slot already promised, and the promised region grows by its
            // child count.
            let ghost nd = nodes@[idx as int];
            assert(nodes@ == nodes0.push(nd));
            assert forall|i: int| 0 <= i <= idx implies slots_before(nodes@, i) == slots_before(
                nodes0,
                i,
            ) by {
                lemma_slots_before_push(nodes0, nd, i);
            }
            assert(slots_before(nodes@, idx as int) == base);
            assert(slots_before(nodes@, nodes@.len() as int) == base + cnt);
            assert(nodes@.len() + queue@.len() == base + cnt);
            let ghost total_now = nodes@.len() + queue@.len() as int;
            assert forall|i: int| 0 <= i < nodes@.len() implies (#[trigger] nodes@[i]).row
                < 0x1_0000_0000 && nodes@[i].col < 0x1_0000_0000 && (forall|j: int|
                0 <= j < nodes@[i].children@.len() ==> #[trigger] nodes@[i].children@[j]
                    == slots_before(nodes@, i) + j && i < nodes@[i].children@[j]
                    && nodes@[i].children@[j] < total_now) by {
                if i < idx {
                    assert(nodes@[i] == nodes0[i]);
                    assert(capture_wf(nodes0, nodes0.len() + queue0.len() as int));
                } else {
                    assert(nodes@[i].children@.len() == cnt);
                }
            }
            assert(capture_wf(nodes@, total_now));
        }
    }
    let t = SyntaxTree { nodes };
    proof {
        assert(sum_seq(dq) == 0);
        assert(t.nodes@.len() == total);
        assert forall|i: int| 0 <= i < t.nodes@.len() implies #[trigger] t.node_wf(i) by {
            assert(capture_wf(t.nodes@, t.nodes@.len() as int));
        }
        assert(t.wf());
        assert(corresponds(t, wit));
    }
    t
}

/// Parses one source text with a loaded grammar. Malformed source does not
/// fail: the grammar's recovery emits designated error nodes instead, so a
/// compatible grammar yields a well-formed captured tree for every input,
/// mirroring the native nodes' kinds, positions and child counts; the call
/// fails exactly when the grammar's ABI is incompatible. `ParseFailure`,
/// for a native routine that reports no tree at all, is proved unreachable
/// here.
pub fn parse(grammar: &LoadedLanguage, source: &str) -> (r: Result<SyntaxTree, Error>)
    ensures
        r matches Ok(t) ==> t.wf() && (exists|w: Seq<tree_sitter::Node>| corresponds(t, w)),
        r is Ok <==> language_compatible(grammar.language),
        r matches Err(e) ==> e == Error::AbiMismatch,
{
    let mut parser = parser_new();
    match parser_set_language(&mut parser, &grammar.language) {
        Err(_) => Err(Error::AbiMismatch),
        Ok(_) => match parser_parse(&mut parser, source) {
            None => {
                proof {
                    assert(false);
                }
                Err(Error::ParseFailure)
            },
            Some(tree) => Ok(snapshot(&tree)),
        },
    }
}

} // verus!
