//! The expression tree: an arena of nodes with parent links, grown one
//! operator at a time at a cursor. The cursor is the path of node indices
//! from the root down to the active node.
use vstd::prelude::*;
use crate::number::{Atom, AtomModel};

verus! {

/// The kind of a node.
#[derive(Debug)]
pub enum Operator {
    Head,
    Working,
    Number(Atom),
    Func(Vec<char>),
    Parentheses,
    Mul,
    Div,
    Add,
    Sub,
    Neg,
    Expon,
}

/// What an `Operator` denotes: the same kinds, with words as sequences.
pub enum OpModel {
    Head,
    Working,
    Number(AtomModel),
    Func(Seq<char>),
    Parentheses,
    Mul,
    Div,
    Add,
    Sub,
    Neg,
    Expon,
}

impl View for Operator {
    type V = OpModel;

    open spec fn view(&self) -> OpModel {
        match self {
            Operator::Head => OpModel::Head,
            Operator::Working => OpModel::Working,
            Operator::Number(a) => OpModel::Number(a@),
            Operator::Func(name) => OpModel::Func(name@),
            Operator::Parentheses => OpModel::Parentheses,
            Operator::Mul => OpModel::Mul,
            Operator::Div => OpModel::Div,
            Operator::Add => OpModel::Add,
            Operator::Sub => OpModel::Sub,
            Operator::Neg => OpModel::Neg,
            Operator::Expon => OpModel::Expon,
        }
    }
}

/// Precedence label of an operator: higher binds tighter.
pub open spec fn label(op: OpModel) -> nat {
    match op {
        OpModel::Head => usize::MAX as nat,
        OpModel::Func(_) => 5,
        OpModel::Parentheses => 5,
        OpModel::Neg => 4,
        OpModel::Expon => 3,
        OpModel::Mul => 2,
        OpModel::Div => 2,
        OpModel::Add => 1,
        OpModel::Sub => 1,
        OpModel::Working => 0,
        OpModel::Number(_) => 0,
    }
}

/// The operators that `insert_in_parent` places.
pub open spec fn is_insertable(op: OpModel) -> bool {
    op is Mul || op is Div || op is Add || op is Sub || op is Neg || op is Expon
}

/// Whether a new operator `op`, met below `parent`, takes the subtree of
/// `parent` as its left operand. Grouping nodes and the root stop the climb;
/// a negation is placed where it stands; `^` nests to the right and binds
/// tighter than a negation above it; the other binary operators climb past
/// operators of equal or higher label.
pub open spec fn climbs_past(parent: OpModel, op: OpModel) -> bool {
    if op is Neg {
        false
    } else {
        match parent {
            OpModel::Neg => !(op is Expon),
            OpModel::Expon | OpModel::Mul | OpModel::Div | OpModel::Add | OpModel::Sub => {
                label(parent) > label(op) || (label(parent) == label(op) && !(op is Expon))
            },
            _ => false,
        }
    }
}

/// What an `Instruction` denotes.
pub struct NodeModel {
    pub op: OpModel,
    pub parent: usize,
    pub children: Option<(usize, usize)>,
}

impl View for Instruction {
    type V = NodeModel;

    open spec fn view(&self) -> NodeModel {
        NodeModel { op: self.operator@, parent: self.parent, children: self.children }
    }
}

/// The arena seen node by node.
pub open spec fn model(nodes: Seq<Instruction>) -> Seq<NodeModel> {
    nodes.map_values(|n: Instruction| n@)
}

/// A node like `node` with another operator.
pub open spec fn with_op(node: NodeModel, op: OpModel) -> NodeModel {
    NodeModel { op, parent: node.parent, children: node.children }
}

/// A node like `node` with another parent.
pub open spec fn with_parent(node: NodeModel, parent: usize) -> NodeModel {
    NodeModel { op: node.op, parent, children: node.children }
}

/// A node like `node` with other children.
pub open spec fn with_kids(node: NodeModel, children: Option<(usize, usize)>) -> NodeModel {
    NodeModel { op: node.op, parent: node.parent, children }
}

/// A fresh placeholder under `parent`.
pub open spec fn working_under(parent: usize) -> NodeModel {
    NodeModel { op: OpModel::Working, parent, children: None }
}

/// Where on the cursor an operator `op` lands, climbing from position `j`.
pub open spec fn climb_from(ns: Seq<NodeModel>, path: Seq<usize>, op: OpModel, j: int) -> int
    decreases j,
{
    if j <= 1 || !climbs_past(ns[path[j - 1] as int].op, op) {
        j
    } else {
        climb_from(ns, path, op, j - 1)
    }
}

/// The arena and cursor after inserting `op` above the cursor.
#[verifier::opaque]
pub open spec fn insert_model(ns: Seq<NodeModel>, path: Seq<usize>, op: OpModel) -> (Seq<NodeModel>, Seq<usize>) {
    let j = climb_from(ns, path, op, path.len() - 1);
    let p = path[j - 1];
    let x = path[j];
    let n = ns.len() as usize;
    let ns1 = ns.update(x as int, with_parent(ns[x as int], n)).update(
        p as int,
        with_kids(ns[p as int], replace_slot(ns[p as int].children, x, n)),
    ).push(NodeModel { op, parent: p, children: Some((x, (n + 1) as usize)) }).push(working_under(n));
    (ns1, path.subrange(0, j).push(n))
}

/// The arena, cursor and outcome after moving to the first free child.
#[verifier::opaque]
pub open spec fn first_working_model(ns: Seq<NodeModel>, path: Seq<usize>) -> (Seq<NodeModel>, Seq<usize>, bool) {
    let cur = path.last() as int;
    let n = ns.len() as usize;
    let ns1 = if ns[cur].children is None {
        ns.update(cur, with_kids(ns[cur], Some((n, (n + 1) as usize)))).push(working_under(cur as usize)).push(
            working_under(cur as usize),
        )
    } else {
        ns
    };
    match ns1[cur].children {
        Some((a, b)) => if ns1[a as int].op is Working {
            (ns1, path.push(a), true)
        } else if ns1[b as int].op is Working {
            (ns1, path.push(b), true)
        } else {
            (ns1, path, false)
        },
        None => (ns1, path, false),
    }
}

/// The cursor after a `)`: the nearest parenthesis or function above it,
/// if one comes before the root.
#[verifier::opaque]
pub open spec fn close_model(ns: Seq<NodeModel>, path: Seq<usize>) -> Option<Seq<usize>> {
    let g = group_below(ns, path, path.len() - 2);
    if g > 0 {
        Some(path.subrange(0, g + 1))
    } else {
        None
    }
}

/// The cursor moved to the slot just after its own in its parent, if there
/// is one.
#[verifier::opaque]
pub open spec fn next_model(ns: Seq<NodeModel>, path: Seq<usize>) -> Option<Seq<usize>> {
    let parent = ns[path[path.len() - 2] as int];
    match parent.children {
        Some((a, b)) => if a == path.last() {
            Some(path.drop_last().push(b))
        } else {
            None
        },
        None => None,
    }
}

/// A node of the tree: its operator, the index of its parent (the root names
/// itself) and, once it has operands, the indices of its two child slots.
#[derive(Debug)]
pub struct Instruction {
    pub operator: Operator,
    pub parent: usize,
    pub children: Option<(usize, usize)>,
}

/// Whether `c` is one of the child slots of `p`.
pub open spec fn child_of(nodes: Seq<Instruction>, p: int, c: int) -> bool {
    nodes[p].children matches Some((a, b)) && (c == a || c == b)
}

/// The arena invariant: the root at index 0 is the only `Head`; every child
/// index is in bounds, not the root, and links back to its parent; every
/// other node is listed among the slots of its parent; the two slots of a
/// node differ; placeholders have no children; operators have their slots.
pub open spec fn tree_wf(nodes: Seq<Instruction>) -> bool {
    &&& nodes.len() >= 1
    &&& nodes[0].operator is Head
    &&& forall|i: int|
        0 <= i < nodes.len() ==> match #[trigger] nodes[i].children {
            Some((a, b)) => 0 < a < nodes.len() && 0 < b < nodes.len() && a != b
                && nodes[a as int].parent == i && nodes[b as int].parent == i,
            None => true,
        }
    &&& forall|i: int| 0 < i < nodes.len() ==> !(#[trigger] nodes[i].operator is Head)
    &&& forall|i: int|
        0 <= i < nodes.len() && (#[trigger] nodes[i].operator is Working)
            ==> nodes[i].children is None
    &&& forall|i: int|
        0 < i < nodes.len() ==> #[trigger] nodes[i].parent < nodes.len() && child_of(
            nodes,
            nodes[i].parent as int,
            i,
        )
    &&& forall|i: int|
        0 <= i < nodes.len() && is_insertable(#[trigger] nodes[i].operator@) ==> nodes[i].children is Some
}

/// A cursor: distinct nodes from the root down, each a child of the one
/// before.
pub open spec fn path_ok(nodes: Seq<Instruction>, path: Seq<usize>) -> bool {
    &&& path.len() >= 1
    &&& path[0] == 0
    &&& forall|k: int| 0 <= k < path.len() ==> #[trigger] path[k] < nodes.len()
    &&& forall|k: int| 0 <= k < path.len() - 1 ==> child_of(nodes, #[trigger] path[k] as int, path[k + 1] as int)
    &&& forall|a: int, b: int| 0 <= a < b < path.len() ==> #[trigger] path[a] != #[trigger] path[b]
}

/// The deepest position at or above `m` on the cursor whose node groups
/// (label at least that of a parenthesis); the root always does.
pub open spec fn group_below(ns: Seq<NodeModel>, path: Seq<usize>, m: int) -> int
    decreases m,
{
    if m <= 0 {
        0
    } else if label(ns[path[m] as int].op) >= 5 {
        m
    } else {
        group_below(ns, path, m - 1)
    }
}

/// Children `ch` with the slot holding `x` handed to `n`.
pub open spec fn replace_slot(ch: Option<(usize, usize)>, x: usize, n: usize) -> Option<(usize, usize)> {
    match ch {
        Some((a, b)) => if a == x {
            Some((n, b))
        } else {
            Some((a, n))
        },
        None => None,
    }
}

fn placeholder() -> (r: Instruction)
    ensures
        r.operator is Working,
        r.children is None,
{
    Instruction { operator: Operator::Working, parent: 0, children: None }
}

/// Sets the children of node `i`.
fn set_children(nodes: &mut Vec<Instruction>, i: usize, ch: Option<(usize, usize)>)
    requires
        i < old(nodes)@.len(),
    ensures
        final(nodes)@.len() == old(nodes)@.len(),
        final(nodes)@[i as int].children == ch,
        final(nodes)@[i as int].parent == old(nodes)@[i as int].parent,
        final(nodes)@[i as int].operator == old(nodes)@[i as int].operator,
        forall|j: int| 0 <= j < old(nodes)@.len() && j != i ==> final(nodes)@[j] == old(nodes)@[j],
{
    let mut tmp = placeholder();
    nodes.set_and_swap(i, &mut tmp);
    tmp.children = ch;
    nodes.set_and_swap(i, &mut tmp);
}

/// Sets the parent of node `i`.
fn set_parent(nodes: &mut Vec<Instruction>, i: usize, p: usize)
    requires
        i < old(nodes)@.len(),
    ensures
        final(nodes)@.len() == old(nodes)@.len(),
        final(nodes)@[i as int].children == old(nodes)@[i as int].children,
        final(nodes)@[i as int].parent == p,
        final(nodes)@[i as int].operator == old(nodes)@[i as int].operator,
        forall|j: int| 0 <= j < old(nodes)@.len() && j != i ==> final(nodes)@[j] == old(nodes)@[j],
{
    let mut tmp = placeholder();
    nodes.set_and_swap(i, &mut tmp);
    tmp.parent = p;
    nodes.set_and_swap(i, &mut tmp);
}

/// The arena invariant survives putting node `n`, with children `x` and
/// `n + 1`, into the slot of `p` that held `x`.
proof fn lemma_insert_wf(n0: Seq<Instruction>, n1: Seq<Instruction>, p: int, x: int, n: int)
    requires
        tree_wf(n0),
        0 <= p < n0.len(),
        child_of(n0, p, x),
        p != x,
        n == n0.len(),
        n0.len() + 2 <= usize::MAX,
        n1.len() == n0.len() + 2,
        n1[n].parent == p,
        n1[n].children == Some((x as usize, (n + 1) as usize)),
        !(n1[n].operator is Head),
        !(n1[n].operator is Working),
        n1[n + 1].parent == n,
        n1[n + 1].children is None,
        n1[n + 1].operator is Working,
        n1[x].parent == n,
        n1[x].children == n0[x].children,
        n1[x].operator == n0[x].operator,
        n1[p].operator == n0[p].operator,
        n1[p].parent == n0[p].parent,
        n0[p].children matches Some((c0, c1)) && n1[p].children == (if c0 == x {
            Some((n as usize, c1))
        } else {
            Some((c0, n as usize))
        }),
        forall|i: int| 0 <= i < n0.len() && i != p && i != x ==> n1[i] == n0[i],
    ensures
        tree_wf(n1),
{
    assert forall|i: int| 0 <= i < n1.len() implies match #[trigger] n1[i].children {
        Some((a, b)) => 0 < a < n1.len() && 0 < b < n1.len() && a != b && n1[a as int].parent
            == i && n1[b as int].parent == i,
        None => true,
    } by {
        if i < n0.len() && i != p {
            match n0[i].children {
                Some((a, b)) => {
                    assert(n0[a as int].parent == i);
                    assert(n0[b as int].parent == i);
                    assert(a != x && b != x) by {
                        if a == x || b == x {
                            assert(n0[x].parent == i);
                            assert(n0[x].parent == p);
                        }
                    }
                },
                None => {},
            }
        }
        if i == p {
            match n0[p].children {
                Some((a, b)) => {
                    assert(n0[a as int].parent == p);
                    assert(n0[b as int].parent == p);
                    if a != x {
                        assert(a != p ==> n1[a as int] == n0[a as int]);
                    }
                    if b != x {
                        assert(b != p ==> n1[b as int] == n0[b as int]);
                    }
                },
                None => {},
            }
        }
        if i == x {
            match n0[x].children {
                Some((a, b)) => {
                    assert(n0[a as int].parent == x);
                    assert(n0[b as int].parent == x);
                    assert(a != x && b != x);
                    assert(a != p ==> n1[a as int] == n0[a as int]);
                    assert(b != p ==> n1[b as int] == n0[b as int]);
                },
                None => {},
            }
        }
        if i < n0.len() && i != p && i != x {
            match n0[i].children {
                Some((a, b)) => {
                    assert(a != p ==> n1[a as int] == n0[a as int]);
                    assert(b != p ==> n1[b as int] == n0[b as int]);
                },
                None => {},
            }
        }
    }
    assert forall|i: int| 0 < i < n1.len() implies !(#[trigger] n1[i].operator is Head) by {
        if i < n0.len() && i != p && i != x {
            assert(n1[i] == n0[i]);
        }
    }
    assert forall|i: int|
        0 <= i < n1.len() && (#[trigger] n1[i].operator is Working) implies n1[i].children is None by {
        if i < n0.len() && i != p && i != x {
            assert(n1[i] == n0[i]);
        }
    }
}

/// The arena invariant survives giving the childless node `cur` the two new
/// placeholders at the end of the arena.
proof fn lemma_grow_wf(n0: Seq<Instruction>, n1: Seq<Instruction>, cur: int)
    requires
        tree_wf(n0),
        0 <= cur < n0.len(),
        n0[cur].children is None,
        !(n0[cur].operator is Working),
        n1.len() == n0.len() + 2,
        n1[cur].children == Some((n0.len() as usize, (n0.len() + 1) as usize)),
        n1[cur].operator == n0[cur].operator,
        n1[cur].parent == n0[cur].parent,
        n0.len() + 2 <= usize::MAX,
        n1[n0.len() as int].parent == cur,
        n1[n0.len() as int + 1].parent == cur,
        n1[n0.len() as int].children is None,
        n1[n0.len() as int + 1].children is None,
        n1[n0.len() as int].operator is Working,
        n1[n0.len() as int + 1].operator is Working,
        forall|i: int| 0 <= i < n0.len() && i != cur ==> n1[i] == n0[i],
    ensures
        tree_wf(n1),
{
    assert forall|i: int| 0 <= i < n1.len() implies match #[trigger] n1[i].children {
        Some((a, b)) => 0 < a < n1.len() && 0 < b < n1.len() && a != b && n1[a as int].parent
            == i && n1[b as int].parent == i,
        None => true,
    } by {
        if i < n0.len() && i != cur {
            match n0[i].children {
                Some((a, b)) => {
                    assert(n0[a as int].parent == i);
                    assert(n0[b as int].parent == i);
                    assert(a != cur ==> n1[a as int] == n0[a as int]);
                    assert(b != cur ==> n1[b as int] == n0[b as int]);
                },
                None => {},
            }
        }
    }
    assert forall|i: int| 0 < i < n1.len() implies !(#[trigger] n1[i].operator is Head) by {
        if i < n0.len() && i != cur {
            assert(n1[i] == n0[i]);
        }
    }
    assert forall|i: int|
        0 <= i < n1.len() && (#[trigger] n1[i].operator is Working) implies n1[i].children is None by {
        if i < n0.len() && i != cur {
            assert(n1[i] == n0[i]);
        }
    }
}

/// Cutting the cursor below its `j - 1`-th node and stepping into the node
/// just spliced there keeps it a cursor.
proof fn lemma_path_after_splice(
    n0: Seq<Instruction>,
    n1: Seq<Instruction>,
    p0: Seq<usize>,
    p1: Seq<usize>,
    j: int,
    n: int,
)
    requires
        path_ok(n0, p0),
        1 <= j < p0.len(),
        n == n0.len(),
        n1.len() == n0.len() + 2,
        child_of(n1, p0[j - 1] as int, n),
        forall|i: int| 0 <= i < n0.len() && i != p0[j - 1] ==> #[trigger] n1[i].children == n0[i].children,
        p1 == p0.subrange(0, j).push(n as usize),
    ensures
        path_ok(n1, p1),
        p1.drop_last() == p0.subrange(0, j),
{
    assert(p1.drop_last() =~= p0.subrange(0, j));
    assert forall|k: int| 0 <= k < p1.len() - 1 implies child_of(
        n1,
        #[trigger] p1[k] as int,
        p1[k + 1] as int,
    ) by {
        if k < j - 1 {
            assert(child_of(n0, p0[k] as int, p0[k + 1] as int));
            assert(p0[k] != p0[j - 1]);
            assert(p1[k] == p0[k] && p1[k + 1] == p0[k + 1]);
        }
    }
    assert forall|a: int, b: int| 0 <= a < b < p1.len() implies #[trigger] p1[a] != #[trigger] p1[b] by {
        if b < p1.len() - 1 {
            assert(p0[a] != p0[b]);
        } else {
            assert(p0[a] < n0.len());
        }
    }
    assert forall|k: int| 0 <= k < p1.len() implies #[trigger] p1[k] < n1.len() by {
        if k < p1.len() - 1 {
            assert(p0[k] < n0.len());
        }
    }
}

/// Gives node `i`, which is not the root, an operand or grouping operator;
/// links and cursors are unaffected.
pub(crate) fn set_operator(nodes: &mut Vec<Instruction>, i: usize, op: Operator)
    requires
        tree_wf(old(nodes)@),
        0 < i < old(nodes)@.len(),
        !(op is Head),
        !(op is Working),
        !is_insertable(op@),
    ensures
        model(final(nodes)@) == model(old(nodes)@).update(i as int, with_op(model(old(nodes)@)[i as int], op@)),
        tree_wf(final(nodes)@),
        final(nodes)@.len() == old(nodes)@.len(),
        final(nodes)@[i as int].operator == op,
        forall|j: int| 0 <= j < old(nodes)@.len() ==> #[trigger] final(nodes)@[j].children == old(nodes)@[j].children,
        forall|j: int| 0 <= j < old(nodes)@.len() ==> #[trigger] final(nodes)@[j].parent == old(nodes)@[j].parent,
        forall|j: int| 0 <= j < old(nodes)@.len() && j != i ==> #[trigger] final(nodes)@[j].operator == old(nodes)@[j].operator,
{
    let ghost n0 = nodes@;
    let ghost opm = op@;
    let mut tmp = placeholder();
    nodes.set_and_swap(i, &mut tmp);
    tmp.operator = op;
    nodes.set_and_swap(i, &mut tmp);
    let ghost n1 = nodes@;
    assert forall|j: int| 0 <= j < n1.len() implies #[trigger] model(n1)[j] == model(n0).update(i as int, with_op(model(n0)[i as int], opm))[j] by {
        assert(model(n1)[j] == n1[j]@);
        assert(model(n0)[j] == n0[j]@);
    }
    assert(model(n1) =~= model(n0).update(i as int, with_op(model(n0)[i as int], opm)));
    assert forall|j: int| 0 <= j < n1.len() implies match #[trigger] n1[j].children {
        Some((a, b)) => 0 < a < n1.len() && 0 < b < n1.len() && a != b && n1[a as int].parent
            == j && n1[b as int].parent == j,
        None => true,
    } by {
        assert(n1[j].children == n0[j].children);
        match n0[j].children {
            Some((a, b)) => {
                assert(n1[a as int].parent == n0[a as int].parent);
                assert(n1[b as int].parent == n0[b as int].parent);
            },
            None => {},
        }
    }
    assert forall|j: int| 0 < j < n1.len() implies !(#[trigger] n1[j].operator is Head) by {
        if j != i {
            assert(n1[j] == n0[j]);
        }
    }
    assert forall|j: int| 0 < j < n1.len() implies #[trigger] n1[j].parent < n1.len() && child_of(
        n1,
        n1[j].parent as int,
        j,
    ) by {
        assert(n0[j].parent < n0.len() && child_of(n0, n0[j].parent as int, j));
        assert(n1[n0[j].parent as int].children == n0[n0[j].parent as int].children);
    }
    assert forall|j: int| 0 <= j < n1.len() && is_insertable(#[trigger] n1[j].operator@) implies n1[j].children
        is Some by {
        if j != i {
            assert(n1[j] == n0[j]);
        }
    }
    assert forall|j: int|
        0 <= j < n1.len() && (#[trigger] n1[j].operator is Working) implies n1[j].children is None by {
        if j != i {
            assert(n1[j] == n0[j]);
        }
    }
}

/// A cursor stays a cursor when no node's children change.
pub proof fn lemma_path_same_links(n0: Seq<Instruction>, n1: Seq<Instruction>, path: Seq<usize>)
    requires
        path_ok(n0, path),
        n1.len() == n0.len(),
        forall|j: int| 0 <= j < n0.len() ==> #[trigger] n1[j].children == n0[j].children,
    ensures
        path_ok(n1, path),
{
    assert forall|k: int| 0 <= k < path.len() - 1 implies child_of(n1, #[trigger] path[k] as int, path[k + 1] as int) by {
        assert(child_of(n0, path[k] as int, path[k + 1] as int));
        assert(n1[path[k] as int].children == n0[path[k] as int].children);
    }
}

/// Stepping from the end of a cursor into a child of that node gives a
/// cursor.
proof fn lemma_path_extend(nodes: Seq<Instruction>, path: Seq<usize>, c: int)
    requires
        tree_wf(nodes),
        path_ok(nodes, path),
        child_of(nodes, path.last() as int, c),
    ensures
        path_ok(nodes, path.push(c as usize)),
{
    let cur = path.last();
    match nodes[cur as int].children {
        Some((a, b)) => {},
        None => {},
    }
    assert forall|k: int| 0 <= k < path.len() implies #[trigger] path[k] != c by {
        if k > 0 {
            assert(child_of(nodes, path[k - 1] as int, path[k] as int));
            match nodes[path[k - 1] as int].children {
                Some((a, b)) => {},
                None => {},
            }
            assert(nodes[path[k] as int].parent == path[k - 1]);
            assert(path[k - 1] != cur) by {
                assert(path[k - 1] != path[path.len() - 1]);
            }
        }
    }
    let p1 = path.push(c as usize);
    assert forall|a: int, b: int| 0 <= a < b < p1.len() implies #[trigger] p1[a] != #[trigger] p1[b] by {
        if b < path.len() {
            assert(path[a] != path[b]);
        } else {
            assert(path[a] != c);
        }
    }
    assert forall|k: int| 0 <= k < p1.len() - 1 implies child_of(nodes, #[trigger] p1[k] as int, p1[k + 1] as int) by {
        if k < path.len() - 1 {
            assert(child_of(nodes, path[k] as int, path[k + 1] as int));
        }
    }
}

/// A cursor stays a cursor when only its last node gains children.
proof fn lemma_path_after_grow(n0: Seq<Instruction>, n1: Seq<Instruction>, path: Seq<usize>)
    requires
        path_ok(n0, path),
        n1.len() >= n0.len(),
        forall|j: int| 0 <= j < n0.len() && j != path.last() ==> n1[j] == n0[j],
    ensures
        path_ok(n1, path),
{
    assert forall|k: int| 0 <= k < path.len() - 1 implies child_of(n1, #[trigger] path[k] as int, path[k + 1] as int) by {
        assert(child_of(n0, path[k] as int, path[k + 1] as int));
        assert(path[k] != path.last()) by {
            assert(path[k] != path[path.len() - 1]);
        }
    }
}

/// A cursor cut short is a cursor.
proof fn lemma_path_prefix(nodes: Seq<Instruction>, path: Seq<usize>, m: int)
    requires
        path_ok(nodes, path),
        1 <= m <= path.len(),
    ensures
        path_ok(nodes, path.subrange(0, m)),
{
    let q = path.subrange(0, m);
    assert forall|k: int| 0 <= k < q.len() - 1 implies child_of(nodes, #[trigger] q[k] as int, q[k + 1] as int) by {
        assert(child_of(nodes, path[k] as int, path[k + 1] as int));
    }
    assert forall|a: int, b: int| 0 <= a < b < q.len() implies #[trigger] q[a] != #[trigger] q[b] by {
        assert(path[a] != path[b]);
    }
}

/// The cursor after a `,` is a cursor.
proof fn lemma_next(nodes: Seq<Instruction>, path: Seq<usize>)
    requires
        tree_wf(nodes),
        path_ok(nodes, path),
        path.len() >= 2,
    ensures
        next_model(model(nodes), path) matches Some(q) ==> path_ok(nodes, q) && q.len() >= 2,
        nodes[path[path.len() - 2] as int].children matches Some((a, b)) ==> (next_model(model(nodes), path)
            is Some <==> a == path.last()),
        nodes[path[path.len() - 2] as int].children matches Some((a, b)) ==> (next_model(model(nodes), path)
            is Some ==> next_model(model(nodes), path) == Some(path.drop_last().push(b))),
        nodes[path[path.len() - 2] as int].children is Some,
{
    reveal(next_model);
    let parent = path[path.len() - 2];
    assert(child_of(nodes, parent as int, path.last() as int));
    assert(model(nodes)[parent as int] == nodes[parent as int]@);
    if let Some(q) = next_model(model(nodes), path) {
        match nodes[parent as int].children {
            Some((a, b)) => {
                lemma_path_prefix(nodes, path, path.len() - 1);
                assert(path.subrange(0, path.len() - 1) =~= path.drop_last());
                lemma_path_extend(nodes, path.drop_last(), b as int);
            },
            None => {},
        }
    }
}

/// The node-by-node view of a splice at the landing position `j`.
proof fn lemma_insert_model(
    n0: Seq<Instruction>,
    n1: Seq<Instruction>,
    path: Seq<usize>,
    p1: Seq<usize>,
    op: OpModel,
    j: int,
)
    requires
        p1 == path.subrange(0, j).push(n0.len() as usize),
        path_ok(n0, path),
        1 <= j < path.len(),
        j == climb_from(model(n0), path, op, path.len() - 1),
        path[j - 1] != path[j],
        n0.len() + 2 <= usize::MAX,
        n1.len() == n0.len() + 2,
        n1[n0.len() as int].operator@ == op,
        n1[n0.len() as int].parent == path[j - 1],
        n1[n0.len() as int].children == Some((path[j], (n0.len() + 1) as usize)),
        n1[n0.len() as int + 1].operator is Working,
        n1[n0.len() as int + 1].parent == n0.len(),
        n1[n0.len() as int + 1].children is None,
        forall|i: int| 0 <= i < n0.len() && i != path[j - 1] && i != path[j] ==> #[trigger] n1[i] == n0[i],
        n1[path[j] as int].parent == n0.len(),
        n1[path[j] as int].operator == n0[path[j] as int].operator,
        n1[path[j] as int].children == n0[path[j] as int].children,
        n1[path[j - 1] as int].operator == n0[path[j - 1] as int].operator,
        n1[path[j - 1] as int].parent == n0[path[j - 1] as int].parent,
        n1[path[j - 1] as int].children == replace_slot(n0[path[j - 1] as int].children, path[j], n0.len() as usize),
    ensures
        (model(n1), p1) == insert_model(model(n0), path, op),
{
    reveal(insert_model);
    let expected = insert_model(model(n0), path, op).0;
    let p = path[j - 1] as int;
    let x = path[j] as int;
    assert(model(n0)[p] == n0[p]@);
    assert(model(n0)[x] == n0[x]@);
    assert forall|i: int| 0 <= i < n1.len() implies #[trigger] model(n1)[i] == expected[i] by {
        assert(model(n1)[i] == n1[i]@);
        if i < n0.len() && i != p && i != x {
            assert(model(n0)[i] == n0[i]@);
        }
    }
    assert(model(n1) =~= expected);
}

impl Operator {
    /// The precedence label.
    pub fn get_label(&self) -> (r: usize)
        ensures
            r as nat == label(self@),
    {
        match self {
            Operator::Head => usize::MAX,
            Operator::Func(_) => 5,
            Operator::Parentheses => 5,
            Operator::Neg => 4,
            Operator::Expon => 3,
            Operator::Mul => 2,
            Operator::Div => 2,
            Operator::Add => 1,
            Operator::Sub => 1,
            Operator::Working => 0,
            Operator::Number(_) => 0,
        }
    }

    fn climbs_past_exec(parent: &Operator, op: &Operator) -> (r: bool)
        ensures
            r == climbs_past(parent@, op@),
    {
        if let Operator::Neg = op {
            return false;
        }
        match parent {
            Operator::Neg => !matches!(op, Operator::Expon),
            Operator::Expon | Operator::Mul | Operator::Div | Operator::Add | Operator::Sub => {
                let lp = parent.get_label();
                let lo = op.get_label();
                lp > lo || (lp == lo && !matches!(op, Operator::Expon))
            },
            _ => false,
        }
    }
}

impl Instruction {
    /// A lone root node.
    pub fn head() -> (r: Instruction)
        ensures
            r.operator is Head,
            r.parent == 0,
            r.children is None,
    {
        Instruction { operator: Operator::Head, parent: 0, children: None }
    }

    /// The index of this node's parent.
    pub fn get_parent(&self) -> (r: usize)
        ensures
            r == self.parent,
    {
        self.parent
    }

    /// Appends two placeholder nodes under `parent` and returns their indices.
    fn empty_children(nodes: &mut Vec<Instruction>, parent: usize) -> (r: (usize, usize))
        requires
            old(nodes)@.len() + 2 <= usize::MAX,
        ensures
            r.0 == old(nodes)@.len(),
            r.1 == old(nodes)@.len() + 1,
            final(nodes)@.len() == old(nodes)@.len() + 2,
            final(nodes)@.subrange(0, old(nodes)@.len() as int) == old(nodes)@,
            final(nodes)@[r.0 as int].operator is Working,
            final(nodes)@[r.1 as int].operator is Working,
            final(nodes)@[r.0 as int].children is None,
            final(nodes)@[r.1 as int].children is None,
            final(nodes)@[r.0 as int].parent == parent,
            final(nodes)@[r.1 as int].parent == parent,
    {
        let n = nodes.len();
        nodes.push(Instruction { operator: Operator::Working, parent, children: None });
        nodes.push(Instruction { operator: Operator::Working, parent, children: None });
        assert(nodes@.subrange(0, n as int) =~= old(nodes)@);
        (n, n + 1)
    }

    /// Moves the cursor down to the first placeholder child of the node it
    /// stands on, giving that node two placeholder children first if it has
    /// none. Returns whether it moved (it does not when both children are
    /// already filled).
    #[verifier::rlimit(40)]
    pub fn get_first_working_child(nodes: &mut Vec<Instruction>, path: &mut Vec<usize>) -> (r: bool)
        requires
            tree_wf(old(nodes)@),
            path_ok(old(nodes)@, old(path)@),
            old(nodes)@.len() + 2 <= usize::MAX,
            !(old(nodes)@[old(path)@.last() as int].operator is Working),
        ensures
            (model(final(nodes)@), final(path)@, r) == first_working_model(model(old(nodes)@), old(path)@),
            tree_wf(final(nodes)@),
            path_ok(final(nodes)@, final(path)@),
            old(nodes)@.len() <= final(nodes)@.len() <= old(nodes)@.len() + 2,
            r ==> final(path)@.drop_last() == old(path)@,
            r ==> final(nodes)@[final(path)@.last() as int].operator is Working,
            !r ==> final(path)@ == old(path)@,
            old(nodes)@[old(path)@.last() as int].children is None ==> r,
    {
        let cur = path[path.len() - 1];
        let ghost n0 = nodes@;
        proof {
            reveal(first_working_model);
        }
        let ghost expected = first_working_model(model(n0), path@);
        if nodes[cur].children.is_none() {
            let (a, b) = Instruction::empty_children(nodes, cur);
            let ghost n_mid = nodes@;
            set_children(nodes, cur, Some((a, b)));
            proof {
                lemma_grow_wf(n0, nodes@, cur as int);
                lemma_path_after_grow(n0, nodes@, path@);
                assert forall|i: int| 0 <= i < nodes@.len() implies #[trigger] model(nodes@)[i] == expected.0[i] by {
                    assert(model(nodes@)[i] == nodes@[i]@);
                    if i < n0.len() {
                        assert(model(n0)[i] == n0[i]@);
                        if i != cur {
                            assert(n_mid[i] == n0[i]);
                        }
                    }
                }
                assert(model(nodes@) =~= expected.0);
            }
        }
        assert(model(nodes@) == expected.0);
        let (a, b) = match nodes[cur].children {
            Some(ch) => ch,
            None => {
                return false;
            },
        };
        assert(model(nodes@)[a as int] == nodes@[a as int]@);
        assert(model(nodes@)[b as int] == nodes@[b as int]@);
        assert(model(nodes@)[cur as int] == nodes@[cur as int]@);
        let c = if let Operator::Working = nodes[a].operator {
            a
        } else if let Operator::Working = nodes[b].operator {
            b
        } else {
            return false;
        };
        let ghost p0 = path@;
        proof {
            lemma_path_extend(nodes@, p0, c as int);
        }
        path.push(c);
        assert(path@ == p0.push(c));
        assert(path@.drop_last() =~= p0);
        true
    }

    /// Puts a new node `n` with operator `op` into the slot of `p` that
    /// holds `x`, with `x` as its first child and a new placeholder as its
    /// second.
    fn splice(nodes: &mut Vec<Instruction>, p: usize, x: usize, op: Operator) -> (n: usize)
        requires
            tree_wf(old(nodes)@),
            p < old(nodes)@.len(),
            child_of(old(nodes)@, p as int, x as int),
            p != x,
            old(nodes)@.len() + 2 <= usize::MAX,
            is_insertable(op@),
        ensures
            n == old(nodes)@.len(),
            tree_wf(final(nodes)@),
            final(nodes)@.len() == old(nodes)@.len() + 2,
            final(nodes)@[n as int].operator == op,
            final(nodes)@[n as int].children == Some((x, (n + 1) as usize)),
            final(nodes)@[n + 1].operator is Working,
            child_of(final(nodes)@, p as int, n as int),
            final(nodes)@[n as int].parent == p,
            final(nodes)@[n + 1].parent == n,
            final(nodes)@[n + 1].children is None,
            forall|i: int| 0 <= i < old(nodes)@.len() && i != p ==> #[trigger] final(nodes)@[i].children
                == old(nodes)@[i].children,
            forall|i: int| 0 <= i < old(nodes)@.len() ==> #[trigger] final(nodes)@[i].operator
                == old(nodes)@[i].operator,
            forall|i: int| 0 <= i < old(nodes)@.len() && i != p && i != x ==> #[trigger] final(nodes)@[i]
                == old(nodes)@[i],
            final(nodes)@[x as int].parent == n,
            final(nodes)@[p as int].parent == old(nodes)@[p as int].parent,
            final(nodes)@[p as int].children == replace_slot(old(nodes)@[p as int].children, x, n),
    {
        let n = nodes.len();
        let ghost n0 = nodes@;
        let (c0, c1) = match nodes[p].children {
            Some(ch) => ch,
            None => (0, 0),
        };
        nodes.push(Instruction { operator: op, parent: p, children: Some((x, n + 1)) });
        nodes.push(Instruction { operator: Operator::Working, parent: n, children: None });
        set_parent(nodes, x, n);
        let new_children = if c0 == x {
            (n, c1)
        } else {
            (c0, n)
        };
        set_children(nodes, p, Some(new_children));
        proof {
            lemma_insert_wf(n0, nodes@, p as int, x as int, n as int);
        }
        n
    }

    /// The position on the cursor where an operator `op` lands: it climbs
    /// past every node it binds looser than, and stops below the first one it
    /// does not.
    fn climb(nodes: &Vec<Instruction>, path: &Vec<usize>, op: &Operator) -> (j: usize)
        requires
            tree_wf(nodes@),
            path_ok(nodes@, path@),
            path@.len() >= 2,
        ensures
            1 <= j < path@.len(),
            forall|k: int| j <= k < path@.len() - 1 ==> climbs_past(nodes@[path@[k] as int].operator@, op@),
            !climbs_past(nodes@[path@[j - 1] as int].operator@, op@),
            j == climb_from(model(nodes@), path@, op@, path@.len() - 1),
    {
        let mut j: usize = path.len() - 1;
        while j > 1 && Operator::climbs_past_exec(&nodes[path[j - 1]].operator, op)
            invariant
                1 <= j < path@.len(),
                tree_wf(nodes@),
                path_ok(nodes@, path@),
                forall|k: int| j <= k < path@.len() - 1 ==> climbs_past(nodes@[path@[k] as int].operator@, op@),
                climb_from(model(nodes@), path@, op@, path@.len() - 1) == climb_from(model(nodes@), path@, op@, j as int),
            decreases j,
        {
            assert(model(nodes@)[path@[j - 1] as int] == nodes@[path@[j - 1] as int]@);
            j -= 1;
        }
        assert(model(nodes@)[path@[j - 1] as int] == nodes@[path@[j - 1] as int]@);
        assert(!climbs_past(nodes@[path@[j - 1] as int].operator@, op@)) by {
            if j == 1 {
                assert(nodes@[path@[0] as int].operator is Head);
            }
        }
        j
    }

    /// Places a new node with operator `op` above the cursor, at the lowest
    /// ancestor allowed by precedence and associativity: the node displaced
    /// there becomes its first child, a placeholder its second. The cursor
    /// ends on the new node, whose index is returned.
    pub fn insert_in_parent(nodes: &mut Vec<Instruction>, path: &mut Vec<usize>, op: Operator) -> (r: usize)
        requires
            tree_wf(old(nodes)@),
            path_ok(old(nodes)@, old(path)@),
            old(path)@.len() >= 2,
            old(nodes)@.len() + 2 <= usize::MAX,
            is_insertable(op@),
        ensures
            (model(final(nodes)@), final(path)@) == insert_model(model(old(nodes)@), old(path)@, op@),
            tree_wf(final(nodes)@),
            path_ok(final(nodes)@, final(path)@),
            final(nodes)@.len() == old(nodes)@.len() + 2,
            r == old(nodes)@.len(),
            final(path)@.last() == r,
            final(path)@.len() >= 2,
            final(nodes)@[r as int].operator@ == op@,
    {
        let j = Instruction::climb(nodes, path, &op);
        let p = path[j - 1];
        let x = path[j];
        let ghost n0 = nodes@;
        let ghost p0 = path@;
        let ghost opm = op@;
        assert(child_of(n0, p as int, x as int)) by {
            assert(child_of(n0, p0[j - 1] as int, p0[j as int] as int));
        }
        assert(p != x) by {
            assert(p0[j - 1] != p0[j as int]);
        }
        let n = Instruction::splice(nodes, p, x, op);
        path.truncate(j);
        path.push(n);
        proof {
            lemma_path_after_splice(n0, nodes@, p0, path@, j as int, n as int);
            lemma_insert_model(n0, nodes@, p0, path@, opm, j as int);
        }
        n
    }

    /// Moves the cursor up to the nearest parenthesis or function node above
    /// it. Fails, leaving the cursor where it is, when the root comes first.
    pub fn close_parentheses(nodes: &Vec<Instruction>, path: &mut Vec<usize>) -> (r: bool)
        requires
            tree_wf(nodes@),
            path_ok(nodes@, old(path)@),
            old(path)@.len() >= 2,
        ensures
            r == (group_below(model(nodes@), old(path)@, old(path)@.len() - 2) > 0),
            r ==> final(path)@ == old(path)@.subrange(0, group_below(model(nodes@), old(path)@, old(path)@.len() - 2) + 1),
            !r ==> final(path)@ == old(path)@,
            r ==> close_model(model(nodes@), old(path)@) == Some(final(path)@),
            !r ==> close_model(model(nodes@), old(path)@) is None,
            path_ok(nodes@, final(path)@),
            final(path)@.len() >= 2,
    {
        proof {
            reveal(close_model);
        }
        let mut k: usize = path.len() - 2;
        while nodes[path[k]].operator.get_label() < 5
            invariant
                tree_wf(nodes@),
                path_ok(nodes@, path@),
                path@.len() >= 2,
                0 <= k <= path@.len() - 2,
                group_below(model(nodes@), path@, path@.len() - 2) == group_below(model(nodes@), path@, k as int),
            decreases k,
        {
            assert(model(nodes@)[path@[k as int] as int] == nodes@[path@[k as int] as int]@);
            assert(k > 0) by {
                assert(nodes@[path@[0] as int].operator is Head);
            }
            k -= 1;
        }
        assert(model(nodes@)[path@[k as int] as int] == nodes@[path@[k as int] as int]@);
        if k > 0 {
            let ghost p0 = path@;
            path.truncate(k + 1);
            assert(path@ =~= p0.subrange(0, k + 1));
            true
        } else {
            false
        }
    }

    /// Moves the cursor to the slot just after its own in its parent's list.
    /// Fails, leaving the cursor where it is, when it is on the last slot.
    #[verifier::rlimit(40)]
    pub fn get_next_child(nodes: &Vec<Instruction>, path: &mut Vec<usize>) -> (r: bool)
        requires
            tree_wf(nodes@),
            path_ok(nodes@, old(path)@),
            old(path)@.len() >= 2,
        ensures
            r == next_model(model(nodes@), old(path)@) is Some,
            r ==> next_model(model(nodes@), old(path)@) == Some(final(path)@),
            !r ==> final(path)@ == old(path)@,
            path_ok(nodes@, final(path)@),
            final(path)@.len() >= 2,
    {
        let parent = path[path.len() - 2];
        let cur = path[path.len() - 1];
        let (a, b) = match nodes[parent].children {
            Some(ch) => ch,
            None => (0, 0),
        };
        let ghost p0 = path@;
        proof {
            lemma_next(nodes@, p0);
        }
        if a == cur {
            path.pop();
            path.push(b);
            assert(path@ =~= p0.drop_last().push(b));
            true
        } else {
            false
        }
    }
}

} // verus!
