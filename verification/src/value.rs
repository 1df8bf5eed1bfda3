//! Scalar differentiable nodes, the arena that owns them, and the backward
//! engine that accumulates exact gradients over the recorded graph.

use vstd::prelude::*;

verus! {

/// The closed set of operations a non-leaf node can record.
#[derive(Clone, Copy, PartialEq, Eq, Structural, Debug, Hash)]
pub enum Operation {
    Add,
    Sub,
    Mul,
}

/// One scalar computation node: its value (`data`), its accumulated
/// gradient, an optional label, and — when built by an operation — the
/// operation tag and the arena indices of its operands.
#[derive(Clone, PartialEq, Eq, Debug, Hash)]
pub struct ValueInternal {
    pub data: i64,
    pub gradient: i64,
    pub label: Option<String>,
    pub operation: Option<Operation>,
    pub previous: Vec<usize>,
}

impl ValueInternal {
    /// Builds a node record with a fresh (zero) gradient accumulator.
    pub fn new(
        data: i64,
        label: Option<String>,
        operation: Option<Operation>,
        previous: Vec<usize>,
    ) -> (r: ValueInternal)
        ensures
            r.data == data,
            r.gradient == 0,
            r.label == label,
            r.operation == operation,
            r.previous == previous,
    {
        ValueInternal { data, gradient: 0, label, operation, previous }
    }
}

/// `x` fits in an `i64`.
pub open spec fn in_i64(x: int) -> bool {
    i64::MIN <= x <= i64::MAX
}

/// `n` with its gradient replaced by `gr`, all other fields kept.
pub open spec fn with_gradient(n: ValueInternal, gr: i64) -> ValueInternal {
    ValueInternal { gradient: gr, ..n }
}

/// `n` with its data replaced by `d`, all other fields kept.
pub open spec fn with_data(n: ValueInternal, d: i64) -> ValueInternal {
    ValueInternal { data: d, ..n }
}

/// A leaf node carrying `data`: no operation, no operands, zero gradient.
pub open spec fn is_leaf(n: ValueInternal, data: i64) -> bool {
    &&& n.data == data
    &&& n.gradient == 0
    &&& n.label is None
    &&& n.operation is None
    &&& n.previous@.len() == 0
}

/// An operation node: data `d`, zero gradient, tag `op`, operands `u`
/// then `v` (order matters: propagation indexes operands positionally).
pub open spec fn is_op_node(n: ValueInternal, op: Operation, d: i64, u: int, v: int) -> bool {
    &&& n.data == d
    &&& n.gradient == 0
    &&& n.label is None
    &&& n.operation == Some(op)
    &&& n.previous@.len() == 2
    &&& n.previous@[0] as int == u
    &&& n.previous@[1] as int == v
}

/// Well-formedness of the node stored at index `i`: an operation node has
/// exactly two operands, both created strictly before it; a leaf has none.
/// Operands pointing strictly downward is what makes the arena order a
/// topological order of the graph.
pub open spec fn node_wf(nodes: Seq<ValueInternal>, i: int) -> bool {
    &&& (nodes[i].operation is Some ==> {
        &&& nodes[i].previous@.len() == 2
        &&& (nodes[i].previous@[0] as int) < i
        &&& (nodes[i].previous@[1] as int) < i
    })
    &&& (nodes[i].operation is None ==> nodes[i].previous@.len() == 0)
}

/// Every node of the arena is well-formed.
pub open spec fn graph_wf(nodes: Seq<ValueInternal>) -> bool {
    forall|i: int| 0 <= i < nodes.len() ==> #[trigger] node_wf(nodes, i)
}

/// The gradients of all nodes, as unbounded integers.
pub open spec fn grads_of(nodes: Seq<ValueInternal>) -> Seq<int> {
    Seq::new(nodes.len(), |i: int| nodes[i].gradient as int)
}

/// Local derivative of node `j`'s value with respect to its first operand:
/// 1 for a sum, the second operand's forward value for a product.
pub open spec fn coeff0(nodes: Seq<ValueInternal>, j: int) -> int {
    match nodes[j].operation {
        Some(Operation::Add) => 1,
        Some(Operation::Sub) => 1,
        Some(Operation::Mul) => nodes[nodes[j].previous@[1] as int].data as int,
        None => 0,
    }
}

/// Local derivative of node `j`'s value with respect to its second operand:
/// 1 for a sum, -1 for a difference, the first operand's forward value for a
/// product.
pub open spec fn coeff1(nodes: Seq<ValueInternal>, j: int) -> int {
    match nodes[j].operation {
        Some(Operation::Add) => 1,
        Some(Operation::Sub) => -1,
        Some(Operation::Mul) => nodes[nodes[j].previous@[0] as int].data as int,
        None => 0,
    }
}

/// The evolving state of a backward pass: which nodes are known to be
/// reachable from the root, and every node's gradient.
pub struct BackwardState {
    pub marks: Seq<bool>,
    pub grads: Seq<int>,
}

/// The state a backward pass starts from: only the root is marked, and the
/// root's gradient is set to exactly 1.
pub open spec fn backward_init(nodes: Seq<ValueInternal>, root: int) -> BackwardState {
    BackwardState {
        marks: Seq::new(nodes.len(), |i: int| i == root),
        grads: grads_of(nodes).update(root, 1),
    }
}

/// One propagation step of the backward pass at node `j`: if `j` is marked
/// reachable and carries an operation, both operands are marked and each
/// receives the node's gradient times the local derivative, first operand
/// first. Leaves and unreached nodes change nothing.
pub open spec fn backward_step(nodes: Seq<ValueInternal>, st: BackwardState, j: int) -> BackwardState {
    if !st.marks[j] || nodes[j].operation is None {
        st
    } else {
        let u = nodes[j].previous@[0] as int;
        let v = nodes[j].previous@[1] as int;
        let gr = st.grads[j];
        let g1 = st.grads.update(u, st.grads[u] + coeff0(nodes, j) * gr);
        let g2 = g1.update(v, g1[v] + coeff1(nodes, j) * gr);
        BackwardState { marks: st.marks.update(u, true).update(v, true), grads: g2 }
    }
}

/// The state after the backward pass has processed indices `root` down to
/// `j` inclusive, in that order. Descending index order is a true
/// reverse-topological order: operands always have smaller indices, so every
/// consumer of a node finishes propagating before the node itself runs.
pub open spec fn backward_upto(nodes: Seq<ValueInternal>, root: int, j: int) -> BackwardState
    decreases root + 1 - j,
{
    if j > root {
        backward_init(nodes, root)
    } else {
        backward_step(nodes, backward_upto(nodes, root, j + 1), j)
    }
}

/// The gradients after a complete backward pass rooted at `root`.
pub open spec fn backward_grads(nodes: Seq<ValueInternal>, root: int) -> Seq<int> {
    backward_upto(nodes, root, 0).grads
}

/// The arithmetic of the propagation step at node `j`, started from state
/// `st`, fits in `i64`: the two local-derivative products and the two
/// accumulated sums, in the order they are computed.
pub open spec fn backward_step_ok(nodes: Seq<ValueInternal>, st: BackwardState, j: int) -> bool {
    st.marks[j] && nodes[j].operation is Some ==> {
        let u = nodes[j].previous@[0] as int;
        let v = nodes[j].previous@[1] as int;
        let gr = st.grads[j];
        let g1 = st.grads.update(u, st.grads[u] + coeff0(nodes, j) * gr);
        &&& in_i64(coeff0(nodes, j) * gr)
        &&& in_i64(st.grads[u] + coeff0(nodes, j) * gr)
        &&& in_i64(coeff1(nodes, j) * gr)
        &&& in_i64(g1[v] + coeff1(nodes, j) * gr)
    }
}

/// Every step of the backward pass rooted at `root` stays within `i64` —
/// the machine limit under which the pass can run at all.
pub open spec fn backward_in_bounds(nodes: Seq<ValueInternal>, root: int) -> bool {
    forall|j: int|
        0 <= j <= root ==> #[trigger] backward_step_ok(nodes, backward_upto(nodes, root, j + 1), j)
}

/// `b` is `a` with only gradients possibly changed: same length, and every
/// node keeps its data, label, operation and operands.
pub open spec fn same_skeleton(a: Seq<ValueInternal>, b: Seq<ValueInternal>) -> bool {
    &&& a.len() == b.len()
    &&& forall|i: int| 0 <= i < a.len() ==> #[trigger] b[i] == with_gradient(a[i], b[i].gradient)
}

/// Lengths of the backward state stay equal to the number of nodes.
proof fn lemma_backward_upto_len(nodes: Seq<ValueInternal>, root: int, j: int)
    requires
        graph_wf(nodes),
        0 <= root < nodes.len(),
        0 <= j,
    ensures
        backward_upto(nodes, root, j).marks.len() == nodes.len(),
        backward_upto(nodes, root, j).grads.len() == nodes.len(),
    decreases root + 1 - j,
{
    if j <= root {
        lemma_backward_upto_len(nodes, root, j + 1);
        assert(node_wf(nodes, j));
    }
}

/// Processing index `j` only ever writes gradients at operand indices below
/// `j`, so gradients at `root` and above keep their initial values: 1 at the
/// root, untouched above it.
proof fn lemma_backward_upto_grads_high(nodes: Seq<ValueInternal>, root: int, j: int)
    requires
        graph_wf(nodes),
        0 <= root < nodes.len(),
        0 <= j,
    ensures
        forall|i: int|
            root <= i < nodes.len() ==> backward_upto(nodes, root, j).grads[i] == backward_init(
                nodes,
                root,
            ).grads[i],
    decreases root + 1 - j,
{
    if j <= root {
        lemma_backward_upto_grads_high(nodes, root, j + 1);
        lemma_backward_upto_len(nodes, root, j + 1);
        assert(node_wf(nodes, j));
    }
}

/// Descent part of the shared-operand law: once the product root `y` has
/// propagated, no node strictly between `x` and `y` is marked reachable, so
/// the rest of the pass never touches `x`'s gradient again.
proof fn lemma_backward_shared_operand(nodes: Seq<ValueInternal>, x: int, y: int, j: int)
    requires
        graph_wf(nodes),
        0 <= x < y < nodes.len(),
        0 <= j <= y,
        nodes[y].operation == Some(Operation::Mul),
        nodes[y].previous@[0] as int == x,
        nodes[y].previous@[1] as int == x,
    ensures
        backward_upto(nodes, y, j).grads[x] == nodes[x].gradient + 2 * nodes[x].data,
        forall|i: int| x < i < y ==> !backward_upto(nodes, y, j).marks[i],
    decreases y - j,
{
    lemma_backward_upto_len(nodes, y, j + 1);
    if j == y {
        let init = backward_init(nodes, y);
        assert(init.grads[y] == 1);
        assert(init.grads[x] == nodes[x].gradient);
        assert(coeff0(nodes, y) == nodes[x].data);
        assert(coeff1(nodes, y) == nodes[x].data);
    } else {
        lemma_backward_shared_operand(nodes, x, y, j + 1);
        assert(node_wf(nodes, j));
    }
}

/// Law (additivity over shared sub-expressions): when one node `x` stands as
/// both operands of a product `y = x * x`, a backward pass rooted at `y` adds
/// `x`'s contribution once per use-site: `x`'s gradient grows by exactly
/// `2 * x.data`. Started from a fresh zero gradient it is therefore exactly
/// twice the stored value — contributions across multiple use-sites sum,
/// they do not overwrite each other.
pub proof fn lemma_gradient_sums_over_shared_subexpression(
    nodes: Seq<ValueInternal>,
    x: int,
    y: int,
)
    requires
        graph_wf(nodes),
        0 <= x < y < nodes.len(),
        nodes[y].operation == Some(Operation::Mul),
        nodes[y].previous@[0] as int == x,
        nodes[y].previous@[1] as int == x,
    ensures
        backward_grads(nodes, y)[x] == nodes[x].gradient + 2 * nodes[x].data,
        nodes[x].gradient == 0 ==> backward_grads(nodes, y)[x] == 2 * nodes[x].data,
{
    lemma_backward_shared_operand(nodes, x, y, 0);
}

/// The arena that owns every node of a computation graph. Nodes are only
/// ever appended, so an operand's index is always strictly below the index
/// of any node that uses it.
pub struct Graph {
    nodes: Vec<ValueInternal>,
}

impl View for Graph {
    type V = Seq<ValueInternal>;

    closed spec fn view(&self) -> Seq<ValueInternal> {
        self.nodes@
    }
}

impl Graph {
    /// An empty arena.
    pub fn new() -> (r: Graph)
        ensures
            r@ == Seq::<ValueInternal>::empty(),
    {
        Graph { nodes: Vec::new() }
    }

    /// Number of nodes created so far.
    pub fn len(&self) -> (r: usize)
        ensures
            r == self@.len(),
    {
        self.nodes.len()
    }
}

/// A handle to one node of a [`Graph`]; its view is the node's arena index.
/// Two handles are equal exactly when they name the same node, so handle
/// equality is node identity.
#[derive(Clone, Copy, PartialEq, Eq, Structural, Debug, Hash)]
pub struct Value {
    index: usize,
}

impl View for Value {
    type V = int;

    closed spec fn view(&self) -> int {
        self.index as int
    }
}

impl Value {
    /// The handle names a node of `nodes`.
    pub open spec fn valid(&self, nodes: Seq<ValueInternal>) -> bool {
        0 <= self@ < nodes.len()
    }

    /// Creates a leaf node from a raw number; its gradient starts at zero.
    pub fn from(g: &mut Graph, data: i64) -> (r: Value)
        ensures
            final(g)@.len() == old(g)@.len() + 1,
            forall|i: int| 0 <= i < old(g)@.len() ==> final(g)@[i] == old(g)@[i],
            r@ == old(g)@.len(),
            r.valid(final(g)@),
            is_leaf(final(g)@[r@], data),
            graph_wf(old(g)@) ==> graph_wf(final(g)@),
    {
        let index = g.nodes.len();
        g.nodes.push(ValueInternal::new(data, None, None, Vec::new()));
        proof {
            assert forall|i: int| 0 <= i < g@.len() && graph_wf(old(g)@) implies node_wf(
                g@,
                i,
            ) by {
                if i < old(g)@.len() {
                    assert(node_wf(old(g)@, i));
                }
            }
        }
        Value { index }
    }

    /// Reads the node's current value.
    pub fn data(&self, g: &Graph) -> (r: i64)
        requires
            self.valid(g@),
        ensures
            r == g@[self@].data,
    {
        g.nodes[self.index].data
    }

    /// Reads the node's currently accumulated gradient.
    pub fn gradient(&self, g: &Graph) -> (r: i64)
        requires
            self.valid(g@),
        ensures
            r == g@[self@].gradient,
    {
        g.nodes[self.index].gradient
    }

    /// Resets this node's gradient to zero. Does not recurse into operands:
    /// every node a caller cares about must be reset individually.
    pub fn zero_grad(&self, g: &mut Graph)
        requires
            self.valid(old(g)@),
        ensures
            final(g)@ == old(g)@.update(self@, with_gradient(old(g)@[self@], 0)),
            final(g)@[self@].gradient == 0,
    {
        g.nodes[self.index].gradient = 0;
        proof {
            assert(final(g)@ =~= old(g)@.update(self@, with_gradient(old(g)@[self@], 0)));
        }
    }

    /// Reverse-mode differentiation rooted at this node. Sets the root's
    /// gradient to exactly 1, then walks the arena indices from the root
    /// downward — a true reverse-topological order, since operands always
    /// sit strictly below their consumers — propagating each reachable
    /// node's accumulated gradient into its operands exactly once. A node
    /// reachable along several paths therefore receives the sum of the
    /// contributions of all of them. Contributions are added onto whatever
    /// gradients were already stored: a caller that wants a fresh pass must
    /// first reset them with `zero_grad`.
    pub fn backward(&self, g: &mut Graph)
        requires
            graph_wf(old(g)@),
            self.valid(old(g)@),
            backward_in_bounds(old(g)@, self@),
        ensures
            final(g)@.len() == old(g)@.len(),
            same_skeleton(old(g)@, final(g)@),
            grads_of(final(g)@) == backward_grads(old(g)@, self@),
            final(g)@[self@].gradient == 1,
            forall|i: int|
                self@ < i < old(g)@.len() ==> final(g)@[i].gradient == old(g)@[i].gradient,
    {
        let ghost g0: Seq<ValueInternal> = g@;
        let root = self.index;
        let n = g.nodes.len();
        let mut marks: Vec<bool> = vec![false; n];
        marks[root] = true;
        g.nodes[root].gradient = 1;
        proof {
            lemma_backward_upto_len(g0, root as int, root as int + 1);
            assert forall|i: int| 0 <= i < n implies marks@[i] == backward_upto(
                g0,
                root as int,
                root as int + 1,
            ).marks[i] && (g@[i].gradient as int) == backward_upto(
                g0,
                root as int,
                root as int + 1,
            ).grads[i] by {}
        }
        let mut k: usize = root + 1;
        while k > 0
            invariant
                k <= root + 1,
                (root as int) < n,
                n == g0.len(),
                g@.len() == n,
                marks@.len() == n,
                graph_wf(g0),
                backward_in_bounds(g0, root as int),
                same_skeleton(g0, g@),
                forall|i: int|
                    0 <= i < n ==> marks@[i] == backward_upto(g0, root as int, k as int).marks[i],
                forall|i: int|
                    0 <= i < n ==> (#[trigger] g@[i].gradient as int) == backward_upto(
                        g0,
                        root as int,
                        k as int,
                    ).grads[i],
            decreases k,
        {
            k = k - 1;
            let j = k;
            let ghost pre = backward_upto(g0, root as int, j as int + 1);
            proof {
                lemma_backward_upto_len(g0, root as int, j as int + 1);
                assert(backward_step_ok(g0, pre, j as int));
                assert(node_wf(g0, j as int));
            }
            if marks[j] {
                let op_opt = g.nodes[j].operation;
                if let Some(op) = op_opt {
                    let u = g.nodes[j].previous[0];
                    let v = g.nodes[j].previous[1];
                    let gr = g.nodes[j].gradient;
                    let c0: i64 = match op {
                        Operation::Add => 1,
                        Operation::Sub => 1,
                        Operation::Mul => g.nodes[v].data,
                    };
                    let c1: i64 = match op {
                        Operation::Add => 1,
                        Operation::Sub => -1,
                        Operation::Mul => g.nodes[u].data,
                    };
                    proof {
                        assert(g@[j as int] == with_gradient(g0[j as int], g@[j as int].gradient));
                        assert(g@[u as int] == with_gradient(g0[u as int], g@[u as int].gradient));
                        assert(g@[v as int] == with_gradient(g0[v as int], g@[v as int].gradient));
                        assert(c0 as int == coeff0(g0, j as int));
                        assert(c1 as int == coeff1(g0, j as int));
                    }
                    marks[u] = true;
                    marks[v] = true;
                    let t0 = c0 * gr;
                    let gu = g.nodes[u].gradient;
                    g.nodes[u].gradient = gu + t0;
                    let t1 = c1 * gr;
                    let gv = g.nodes[v].gradient;
                    g.nodes[v].gradient = gv + t1;
                }
            }
            proof {
                let post = backward_upto(g0, root as int, j as int);
                assert(post == backward_step(g0, pre, j as int));
                assert forall|i: int| 0 <= i < n implies marks@[i] == post.marks[i] && (
                #[trigger] g@[i].gradient as int) == post.grads[i] by {}
            }
        }
        proof {
            lemma_backward_upto_len(g0, root as int, 0);
            lemma_backward_upto_grads_high(g0, root as int, 0);
            assert(grads_of(g@) =~= backward_grads(g0, root as int));
            assert forall|i: int| (root as int) < i < g0.len() implies g@[i].gradient
                == g0[i].gradient by {
                assert(g@[i].gradient as int == backward_upto(g0, root as int, 0).grads[i]);
                assert(backward_init(g0, root as int).grads[i] == grads_of(g0)[i]);
            }
        }
    }

    /// Builds the node `self + other`: its value is the sum of the two
    /// operand values; backward hands each operand the node's full gradient.
    /// Neither input's value is touched.
    pub fn add(&self, other: &Value, g: &mut Graph) -> (r: Value)
        requires
            graph_wf(old(g)@),
            self.valid(old(g)@),
            other.valid(old(g)@),
            in_i64(old(g)@[self@].data + old(g)@[other@].data),
        ensures
            final(g)@.len() == old(g)@.len() + 1,
            forall|i: int| 0 <= i < old(g)@.len() ==> final(g)@[i] == old(g)@[i],
            r@ == old(g)@.len(),
            r.valid(final(g)@),
            is_op_node(
                final(g)@[r@],
                Operation::Add,
                (old(g)@[self@].data + old(g)@[other@].data) as i64,
                self@,
                other@,
            ),
            graph_wf(final(g)@),
    {
        let du = g.nodes[self.index].data;
        let dv = g.nodes[other.index].data;
        let index = g.nodes.len();
        let mut prev: Vec<usize> = Vec::new();
        prev.push(self.index);
        prev.push(other.index);
        g.nodes.push(ValueInternal::new(du + dv, None, Some(Operation::Add), prev));
        proof {
            assert forall|i: int| 0 <= i < g@.len() implies node_wf(g@, i) by {
                if i < old(g)@.len() {
                    assert(node_wf(old(g)@, i));
                }
            }
        }
        Value { index }
    }

    /// Builds the node `self * other`: its value is the product of the two
    /// operand values; backward hands each operand the node's gradient times
    /// the other operand's forward value (product rule).
    pub fn mul(&self, other: &Value, g: &mut Graph) -> (r: Value)
        requires
            graph_wf(old(g)@),
            self.valid(old(g)@),
            other.valid(old(g)@),
            in_i64(old(g)@[self@].data * old(g)@[other@].data),
        ensures
            final(g)@.len() == old(g)@.len() + 1,
            forall|i: int| 0 <= i < old(g)@.len() ==> final(g)@[i] == old(g)@[i],
            r@ == old(g)@.len(),
            r.valid(final(g)@),
            is_op_node(
                final(g)@[r@],
                Operation::Mul,
                (old(g)@[self@].data * old(g)@[other@].data) as i64,
                self@,
                other@,
            ),
            graph_wf(final(g)@),
    {
        let du = g.nodes[self.index].data;
        let dv = g.nodes[other.index].data;
        let index = g.nodes.len();
        let mut prev: Vec<usize> = Vec::new();
        prev.push(self.index);
        prev.push(other.index);
        g.nodes.push(ValueInternal::new(du * dv, None, Some(Operation::Mul), prev));
        proof {
            assert forall|i: int| 0 <= i < g@.len() implies node_wf(g@, i) by {
                if i < old(g)@.len() {
                    assert(node_wf(old(g)@, i));
                }
            }
        }
        Value { index }
    }

    /// Builds `-self` as `self * (-1)`: a fresh constant leaf holding -1 is
    /// created, then a multiplication node over `self` and that leaf.
    pub fn neg(&self, g: &mut Graph) -> (r: Value)
        requires
            graph_wf(old(g)@),
            self.valid(old(g)@),
            old(g)@[self@].data > i64::MIN,
        ensures
            final(g)@.len() == old(g)@.len() + 2,
            forall|i: int| 0 <= i < old(g)@.len() ==> final(g)@[i] == old(g)@[i],
            r@ == old(g)@.len() + 1,
            r.valid(final(g)@),
            is_leaf(final(g)@[old(g)@.len() as int], -1i64),
            is_op_node(
                final(g)@[r@],
                Operation::Mul,
                (-old(g)@[self@].data) as i64,
                self@,
                old(g)@.len() as int,
            ),
            graph_wf(final(g)@),
    {
        let m = Value::from(g, -1);
        self.mul(&m, g)
    }

    /// Builds `self - other` as `self + (-other)`: the constant -1 leaf and
    /// the negation node come first, then the addition node.
    pub fn sub(&self, other: &Value, g: &mut Graph) -> (r: Value)
        requires
            graph_wf(old(g)@),
            self.valid(old(g)@),
            other.valid(old(g)@),
            old(g)@[other@].data > i64::MIN,
            in_i64(old(g)@[self@].data - old(g)@[other@].data),
        ensures
            final(g)@.len() == old(g)@.len() + 3,
            forall|i: int| 0 <= i < old(g)@.len() ==> final(g)@[i] == old(g)@[i],
            r@ == old(g)@.len() + 2,
            r.valid(final(g)@),
            is_leaf(final(g)@[old(g)@.len() as int], -1i64),
            is_op_node(
                final(g)@[old(g)@.len() as int + 1],
                Operation::Mul,
                (-old(g)@[other@].data) as i64,
                other@,
                old(g)@.len() as int,
            ),
            is_op_node(
                final(g)@[r@],
                Operation::Add,
                (old(g)@[self@].data - old(g)@[other@].data) as i64,
                self@,
                old(g)@.len() as int + 1,
            ),
            graph_wf(final(g)@),
    {
        let n = other.neg(g);
        self.add(&n, g)
    }

    /// One gradient-descent step: adds `factor * gradient` onto the value.
    /// Does not reset the gradient.
    pub fn update(&self, factor: i64, g: &mut Graph)
        requires
            self.valid(old(g)@),
            in_i64(factor * old(g)@[self@].gradient),
            in_i64(old(g)@[self@].data + factor * old(g)@[self@].gradient),
        ensures
            final(g)@ == old(g)@.update(
                self@,
                with_data(
                    old(g)@[self@],
                    (old(g)@[self@].data + factor * old(g)@[self@].gradient) as i64,
                ),
            ),
    {
        let gr = g.nodes[self.index].gradient;
        let step = factor * gr;
        let d = g.nodes[self.index].data;
        g.nodes[self.index].data = d + step;
        proof {
            assert(final(g)@ =~= old(g)@.update(
                self@,
                with_data(
                    old(g)@[self@],
                    (old(g)@[self@].data + factor * old(g)@[self@].gradient) as i64,
                ),
            ));
        }
    }
}

} // verus!
