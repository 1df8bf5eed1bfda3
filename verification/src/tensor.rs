//! Multi-dimensional arrays of differentiable nodes: a declared shape,
//! row-major strides derived from it, and element-wise composition of the
//! scalar operation builders.

use crate::value::Graph;
use crate::value::Operation;
use crate::value::Value;
use crate::value::ValueInternal;
use crate::value::graph_wf;
use crate::value::in_i64;
use crate::value::is_leaf;
use crate::value::is_op_node;
use crate::value::with_data;
use crate::value::with_gradient;
use vstd::prelude::*;

verus! {

/// Mathematical product of a sequence of dimension extents.
pub open spec fn prod(s: Seq<usize>) -> int
    decreases s.len(),
{
    if s.len() == 0 {
        1
    } else {
        (s[0] as int) * prod(s.subrange(1, s.len() as int))
    }
}

/// Every suffix product of `shape` fits in a `usize` — the machine limit
/// under which sizes and strides can be computed at all.
pub open spec fn shape_fits(shape: Seq<usize>) -> bool {
    forall|i: int|
        0 <= i <= shape.len() ==> #[trigger] prod(shape.subrange(i, shape.len() as int))
            <= usize::MAX
}

proof fn lemma_prod_suffix_step(shape: Seq<usize>, i: int)
    requires
        0 <= i < shape.len(),
    ensures
        prod(shape.subrange(i, shape.len() as int)) == (shape[i] as int) * prod(
            shape.subrange(i + 1, shape.len() as int),
        ),
{
    let s = shape.subrange(i, shape.len() as int);
    assert(s.subrange(1, s.len() as int) =~= shape.subrange(i + 1, shape.len() as int));
}

proof fn lemma_prod_nonneg(s: Seq<usize>)
    ensures
        prod(s) >= 0,
    decreases s.len(),
{
    if s.len() > 0 {
        lemma_prod_nonneg(s.subrange(1, s.len() as int));
    }
}

/// Row-major strides for `shape`: `r[i]` is the product of all extents
/// after `i`, and the last stride is 1.
pub fn compute_strides(shape: Vec<usize>) -> (r: Vec<usize>)
    requires
        shape_fits(shape@),
    ensures
        r@.len() == shape@.len(),
        forall|i: int|
            0 <= i < shape@.len() ==> r@[i] == prod(
                shape@.subrange(i + 1, shape@.len() as int),
            ),
{
    let n = shape.len();
    let mut r: Vec<usize> = vec![1; n];
    let mut i: usize = n;
    while i > 0
        invariant
            i <= n,
            n == shape@.len(),
            r@.len() == n,
            shape_fits(shape@),
            forall|j: int| 0 <= j < i ==> r@[j] == 1,
            forall|j: int|
                i <= j < n ==> r@[j] == prod(shape@.subrange(j + 1, n as int)),
        decreases i,
    {
        i = i - 1;
        if i + 1 < n {
            proof {
                lemma_prod_suffix_step(shape@, i + 1);
                lemma_prod_nonneg(shape@.subrange(i + 2, n as int));
                assert(prod(shape@.subrange(i + 1, n as int)) <= usize::MAX);
            }
            let v = shape[i + 1] * r[i + 1];
            r[i] = v;
        } else {
            proof {
                assert(shape@.subrange(i + 1, n as int) =~= Seq::<usize>::empty());
            }
        }
    }
    r
}

/// The total number of elements a shape describes: the product of its
/// extents (1 for the empty shape).
pub fn size_of_shape(shape: &Vec<usize>) -> (r: usize)
    requires
        shape_fits(shape@),
    ensures
        r == prod(shape@),
{
    let n = shape.len();
    let mut acc: usize = 1;
    let mut i: usize = n;
    while i > 0
        invariant
            i <= n,
            n == shape@.len(),
            shape_fits(shape@),
            acc == prod(shape@.subrange(i as int, n as int)),
        decreases i,
    {
        i = i - 1;
        proof {
            lemma_prod_suffix_step(shape@, i as int);
            lemma_prod_nonneg(shape@.subrange(i as int, n as int));
            lemma_prod_nonneg(shape@.subrange(i + 1, n as int));
        }
        acc = shape[i] * acc;
    }
    proof {
        assert(shape@.subrange(0, n as int) =~= shape@);
    }
    acc
}

/// Total element count of `shape` computed with overflow checks: `Some`
/// exactly when every suffix product fits in a `usize`.
pub fn checked_size_of_shape(shape: &Vec<usize>) -> (r: Option<usize>)
    ensures
        r is Some <==> shape_fits(shape@),
        r is Some ==> r == Some(prod(shape@) as usize),
{
    let n = shape.len();
    let mut acc: usize = 1;
    let mut i: usize = n;
    while i > 0
        invariant
            i <= n,
            n == shape@.len(),
            acc == prod(shape@.subrange(i as int, n as int)),
            forall|j: int|
                i <= j <= n ==> #[trigger] prod(shape@.subrange(j, n as int)) <= usize::MAX,
        decreases i,
    {
        i = i - 1;
        proof {
            lemma_prod_suffix_step(shape@, i as int);
            lemma_prod_nonneg(shape@.subrange(i + 1, n as int));
        }
        match shape[i].checked_mul(acc) {
            Some(v) => {
                acc = v;
            },
            None => {
                proof {
                    assert(prod(shape@.subrange(i as int, n as int)) > usize::MAX);
                }
                return None;
            },
        }
    }
    proof {
        assert(shape@.subrange(0, n as int) =~= shape@);
        assert forall|j: int| 0 <= j <= shape@.len() implies #[trigger] prod(
            shape@.subrange(j, shape@.len() as int),
        ) <= usize::MAX by {}
    }
    Some(acc)
}

/// The error a tensor operation can signal.
#[derive(Clone, Copy, PartialEq, Eq, Structural, Debug)]
pub enum TensorError {
    /// Differentiation of a whole array needs a reduction to a scalar root,
    /// which this core deliberately does not define.
    UnimplementedReduction,
}

/// The record behind a tensor: its element handles, declared shape, derived
/// strides and element count.
#[derive(Clone, PartialEq, Eq, Debug, Hash)]
pub struct TensorInternal {
    pub data: Vec<Value>,
    pub shape: Vec<usize>,
    pub strides: Vec<usize>,
    pub size: usize,
}

impl TensorInternal {
    /// Builds the record as given.
    pub fn new(data: Vec<Value>, shape: Vec<usize>, strides: Vec<usize>, size: usize) -> (r:
        TensorInternal)
        ensures
            r.data == data,
            r.shape == shape,
            r.strides == strides,
            r.size == size,
    {
        TensorInternal { data, shape, strides, size }
    }
}

/// Shape bookkeeping of a tensor record is consistent: as many elements as
/// the shape's extent product says, and row-major strides derived from the
/// shape.
pub open spec fn tensor_wf(t: TensorInternal) -> bool {
    &&& t.data@.len() == t.size
    &&& t.size == prod(t.shape@)
    &&& shape_fits(t.shape@)
    &&& t.strides@.len() == t.shape@.len()
    &&& forall|i: int|
        0 <= i < t.shape@.len() ==> t.strides@[i] == prod(
            t.shape@.subrange(i + 1, t.shape@.len() as int),
        )
}

/// Every element handle of the record names a node of `nodes`.
pub open spec fn tensor_valid(t: TensorInternal, nodes: Seq<ValueInternal>) -> bool {
    forall|i: int| 0 <= i < t.data@.len() ==> (#[trigger] t.data@[i]).valid(nodes)
}

/// `k` is the arena index of one of the first `n` element handles of `t`.
pub open spec fn tensor_has_elem_upto(t: TensorInternal, k: int, n: int) -> bool {
    exists|i: int| 0 <= i < n && (#[trigger] t.data@[i])@ == k
}

/// `k` is the arena index of some element handle of `t`.
pub open spec fn tensor_has_elem(t: TensorInternal, k: int) -> bool {
    tensor_has_elem_upto(t, k, t.data@.len() as int)
}

/// Graph state after the gradient-descent step has been applied to the
/// first `n` element handles of a tensor, in order. An element that occurs
/// twice steps its shared node twice, once per occurrence.
pub open spec fn tensor_update_upto(
    nodes: Seq<ValueInternal>,
    elems: Seq<Value>,
    factor: int,
    n: int,
) -> Seq<ValueInternal>
    decreases n,
{
    if n <= 0 {
        nodes
    } else {
        let prev = tensor_update_upto(nodes, elems, factor, n - 1);
        let e = elems[n - 1]@;
        prev.update(e, with_data(prev[e], (prev[e].data + factor * prev[e].gradient) as i64))
    }
}

/// Every step of the element-wise gradient-descent fold fits in `i64`.
pub open spec fn tensor_update_ok(
    nodes: Seq<ValueInternal>,
    elems: Seq<Value>,
    factor: int,
    n: int,
) -> bool {
    forall|t: int|
        #![trigger tensor_update_upto(nodes, elems, factor, t)]
        0 <= t < n ==> {
            let prev = tensor_update_upto(nodes, elems, factor, t);
            let e = elems[t]@;
            &&& in_i64(factor * prev[e].gradient)
            &&& in_i64(prev[e].data + factor * prev[e].gradient)
        }
}

/// The gradient-descent fold keeps the arena's length.
proof fn lemma_tensor_update_len(
    nodes: Seq<ValueInternal>,
    elems: Seq<Value>,
    factor: int,
    n: int,
)
    requires
        forall|i: int| 0 <= i < elems.len() ==> (#[trigger] elems[i]).valid(nodes),
        n <= elems.len(),
    ensures
        tensor_update_upto(nodes, elems, factor, n).len() == nodes.len(),
    decreases n,
{
    if n > 0 {
        lemma_tensor_update_len(nodes, elems, factor, n - 1);
    }
}

/// An ordered collection of shared node handles with a declared shape. A
/// tensor owns no numeric storage of its own: mutating an element's node is
/// visible through every tensor or expression sharing that node.
#[derive(Clone, PartialEq, Eq, Debug, Hash)]
pub struct Tensor {
    internal: TensorInternal,
}

impl View for Tensor {
    type V = TensorInternal;

    closed spec fn view(&self) -> TensorInternal {
        self.internal
    }
}

impl Tensor {
    /// Wraps the given element handles under `shape`; strides and size are
    /// derived from the shape. The element count must match the shape's
    /// extent product.
    pub fn new(data: Vec<Value>, shape: Vec<usize>) -> (r: Tensor)
        requires
            shape_fits(shape@),
            data@.len() == prod(shape@),
        ensures
            r@.data == data,
            r@.shape == shape,
            tensor_wf(r@),
    {
        let size = size_of_shape(&shape);
        let strides = compute_strides(shape.clone());
        Tensor { internal: TensorInternal::new(data, shape, strides, size) }
    }

    /// A tensor of the given shape whose every element is value 0 with
    /// gradient 0. All elements share one fresh leaf node, as the
    /// scalar-broadcast constructor does.
    pub fn zeros(g: &mut Graph, shape: Vec<usize>) -> (r: Tensor)
        requires
            shape_fits(shape@),
        ensures
            final(g)@.len() == old(g)@.len() + 1,
            forall|i: int| 0 <= i < old(g)@.len() ==> final(g)@[i] == old(g)@[i],
            graph_wf(old(g)@) ==> graph_wf(final(g)@),
            r@.shape == shape,
            tensor_wf(r@),
            tensor_valid(r@, final(g)@),
            forall|i: int| 0 <= i < r@.data@.len() ==> (#[trigger] r@.data@[i])@ == old(g)@.len(),
            is_leaf(final(g)@[old(g)@.len() as int], 0),
    {
        let size = size_of_shape(&shape);
        let node = Value::from(g, 0);
        let data: Vec<Value> = vec![node; size];
        Tensor::new(data, shape)
    }

    /// A tensor of the given shape whose every element is value 1 with
    /// gradient 0. All elements share one fresh leaf node.
    pub fn ones(g: &mut Graph, shape: Vec<usize>) -> (r: Tensor)
        requires
            shape_fits(shape@),
        ensures
            final(g)@.len() == old(g)@.len() + 1,
            forall|i: int| 0 <= i < old(g)@.len() ==> final(g)@[i] == old(g)@[i],
            graph_wf(old(g)@) ==> graph_wf(final(g)@),
            r@.shape == shape,
            tensor_wf(r@),
            tensor_valid(r@, final(g)@),
            forall|i: int| 0 <= i < r@.data@.len() ==> (#[trigger] r@.data@[i])@ == old(g)@.len(),
            is_leaf(final(g)@[old(g)@.len() as int], 1),
    {
        let size = size_of_shape(&shape);
        let node = Value::from(g, 1);
        let data: Vec<Value> = vec![node; size];
        Tensor::new(data, shape)
    }

    /// The element handles, in row-major order.
    pub fn data(&self) -> (r: Vec<Value>)
        ensures
            r@ == self@.data@,
    {
        let mut r: Vec<Value> = Vec::new();
        let n = self.internal.data.len();
        let mut i: usize = 0;
        while i < n
            invariant
                i <= n,
                n == self@.data@.len(),
                r@ == self@.data@.subrange(0, i as int),
            decreases n - i,
        {
            r.push(self.internal.data[i]);
            proof {
                assert(r@ =~= self@.data@.subrange(0, i as int + 1));
            }
            i = i + 1;
        }
        proof {
            assert(r@ =~= self@.data@);
        }
        r
    }

    /// The declared shape.
    pub fn shape(&self) -> (r: Vec<usize>)
        ensures
            r@ == self@.shape@,
    {
        let mut r: Vec<usize> = Vec::new();
        let n = self.internal.shape.len();
        let mut i: usize = 0;
        while i < n
            invariant
                i <= n,
                n == self@.shape@.len(),
                r@ == self@.shape@.subrange(0, i as int),
            decreases n - i,
        {
            r.push(self.internal.shape[i]);
            proof {
                assert(r@ =~= self@.shape@.subrange(0, i as int + 1));
            }
            i = i + 1;
        }
        proof {
            assert(r@ =~= self@.shape@);
        }
        r
    }

    /// The row-major strides derived from the shape.
    pub fn strides(&self) -> (r: Vec<usize>)
        ensures
            r@ == self@.strides@,
    {
        let mut r: Vec<usize> = Vec::new();
        let n = self.internal.strides.len();
        let mut i: usize = 0;
        while i < n
            invariant
                i <= n,
                n == self@.strides@.len(),
                r@ == self@.strides@.subrange(0, i as int),
            decreases n - i,
        {
            r.push(self.internal.strides[i]);
            proof {
                assert(r@ =~= self@.strides@.subrange(0, i as int + 1));
            }
            i = i + 1;
        }
        proof {
            assert(r@ =~= self@.strides@);
        }
        r
    }

    /// The element count.
    pub fn size(&self) -> (r: usize)
        ensures
            r == self@.size,
    {
        self.internal.size
    }

    /// Re-declares the shape; the new shape's extent product must equal the
    /// current size. Elements stay shared; strides are re-derived.
    pub fn reshape(&mut self, shape: Vec<usize>)
        requires
            shape_fits(shape@),
            prod(shape@) == old(self)@.size,
        ensures
            final(self)@.data == old(self)@.data,
            final(self)@.shape == shape,
            final(self)@.size == old(self)@.size,
            tensor_wf(old(self)@) ==> tensor_wf(final(self)@),
    {
        let strides = compute_strides(shape.clone());
        self.internal.shape = shape;
        self.internal.strides = strides;
    }

    /// `reshape` behind a size check: re-declares the shape and returns true
    /// exactly when the new shape's extent product can be computed and equals
    /// the current size; otherwise returns false and changes nothing. A
    /// size-incompatible shape therefore always fails.
    pub fn checked_reshape(&mut self, shape: Vec<usize>) -> (r: bool)
        ensures
            r <==> (shape_fits(shape@) && prod(shape@) == old(self)@.size),
            r ==> final(self)@.data == old(self)@.data && final(self)@.shape == shape,
            r ==> final(self)@.size == old(self)@.size,
            r && tensor_wf(old(self)@) ==> tensor_wf(final(self)@),
            !r ==> final(self)@ == old(self)@,
    {
        proof {
            lemma_prod_nonneg(shape@);
        }
        match checked_size_of_shape(&shape) {
            Some(size) => {
                proof {
                    assert(shape@.subrange(0, shape@.len() as int) =~= shape@);
                    assert(prod(shape@) <= usize::MAX);
                }
                if size == self.internal.size {
                    self.reshape(shape);
                    true
                } else {
                    false
                }
            },
            None => false,
        }
    }

    /// Element-wise sum: element `i` of the result is a fresh addition node
    /// over element `i` of `self` and element `i` of `other`, wired into the
    /// graph of both. Shapes must match exactly; there is no broadcasting.
    pub fn add(&self, other: &Tensor, g: &mut Graph) -> (r: Tensor)
        requires
            graph_wf(old(g)@),
            tensor_wf(self@),
            tensor_wf(other@),
            tensor_valid(self@, old(g)@),
            tensor_valid(other@, old(g)@),
            self@.shape@ == other@.shape@,
            forall|i: int|
                0 <= i < self@.data@.len() ==> in_i64(
                    old(g)@[(#[trigger] self@.data@[i])@].data + old(g)@[other@.data@[i]@].data,
                ),
        ensures
            graph_wf(final(g)@),
            final(g)@.len() == old(g)@.len() + self@.data@.len(),
            forall|i: int| 0 <= i < old(g)@.len() ==> final(g)@[i] == old(g)@[i],
            r@.shape@ == self@.shape@,
            r@.data@.len() == self@.data@.len(),
            tensor_wf(r@),
            tensor_valid(r@, final(g)@),
            forall|i: int|
                0 <= i < r@.data@.len() ==> (#[trigger] r@.data@[i])@ == old(g)@.len() + i,
            forall|i: int|
                0 <= i < r@.data@.len() ==> is_op_node(
                    final(g)@[old(g)@.len() + i],
                    Operation::Add,
                    (old(g)@[(#[trigger] self@.data@[i])@].data
                        + old(g)@[other@.data@[i]@].data) as i64,
                    self@.data@[i]@,
                    other@.data@[i]@,
                ),
    {
        let ghost g0: Seq<ValueInternal> = g@;
        let n = self.internal.data.len();
        let mut data: Vec<Value> = Vec::new();
        let mut i: usize = 0;
        while i < n
            invariant
                i <= n,
                n == self@.data@.len(),
                n == other@.data@.len(),
                graph_wf(g0),
                graph_wf(g@),
                tensor_valid(self@, g0),
                tensor_valid(other@, g0),
                forall|k: int|
                    0 <= k < n ==> in_i64(
                        g0[(#[trigger] self@.data@[k])@].data + g0[other@.data@[k]@].data,
                    ),
                g@.len() == g0.len() + i,
                forall|k: int| 0 <= k < g0.len() ==> g@[k] == g0[k],
                data@.len() == i,
                forall|k: int| 0 <= k < i ==> (#[trigger] data@[k])@ == g0.len() + k,
                forall|k: int|
                    0 <= k < i ==> is_op_node(
                        g@[g0.len() + k],
                        Operation::Add,
                        (g0[(#[trigger] self@.data@[k])@].data + g0[other@.data@[k]@].data) as i64,
                        self@.data@[k]@,
                        other@.data@[k]@,
                    ),
            decreases n - i,
        {
            let u = self.internal.data[i];
            let v = other.internal.data[i];
            let e = u.add(&v, g);
            data.push(e);
            i = i + 1;
        }
        Tensor::new(data, self.shape())
    }

    /// Element-wise product: element `i` of the result is a fresh
    /// multiplication node over element `i` of `self` and element `i` of
    /// `other`. Shapes must match exactly; there is no broadcasting.
    pub fn mul(&self, other: &Tensor, g: &mut Graph) -> (r: Tensor)
        requires
            graph_wf(old(g)@),
            tensor_wf(self@),
            tensor_wf(other@),
            tensor_valid(self@, old(g)@),
            tensor_valid(other@, old(g)@),
            self@.shape@ == other@.shape@,
            forall|i: int|
                0 <= i < self@.data@.len() ==> in_i64(
                    old(g)@[(#[trigger] self@.data@[i])@].data * old(g)@[other@.data@[i]@].data,
                ),
        ensures
            graph_wf(final(g)@),
            final(g)@.len() == old(g)@.len() + self@.data@.len(),
            forall|i: int| 0 <= i < old(g)@.len() ==> final(g)@[i] == old(g)@[i],
            r@.shape@ == self@.shape@,
            r@.data@.len() == self@.data@.len(),
            tensor_wf(r@),
            tensor_valid(r@, final(g)@),
            forall|i: int|
                0 <= i < r@.data@.len() ==> (#[trigger] r@.data@[i])@ == old(g)@.len() + i,
            forall|i: int|
                0 <= i < r@.data@.len() ==> is_op_node(
                    final(g)@[old(g)@.len() + i],
                    Operation::Mul,
                    (old(g)@[(#[trigger] self@.data@[i])@].data
                        * old(g)@[other@.data@[i]@].data) as i64,
                    self@.data@[i]@,
                    other@.data@[i]@,
                ),
    {
        let ghost g0: Seq<ValueInternal> = g@;
        let n = self.internal.data.len();
        let mut data: Vec<Value> = Vec::new();
        let mut i: usize = 0;
        while i < n
            invariant
                i <= n,
                n == self@.data@.len(),
                n == other@.data@.len(),
                graph_wf(g0),
                graph_wf(g@),
                tensor_valid(self@, g0),
                tensor_valid(other@, g0),
                forall|k: int|
                    0 <= k < n ==> in_i64(
                        g0[(#[trigger] self@.data@[k])@].data * g0[other@.data@[k]@].data,
                    ),
                g@.len() == g0.len() + i,
                forall|k: int| 0 <= k < g0.len() ==> g@[k] == g0[k],
                data@.len() == i,
                forall|k: int| 0 <= k < i ==> (#[trigger] data@[k])@ == g0.len() + k,
                forall|k: int|
                    0 <= k < i ==> is_op_node(
                        g@[g0.len() + k],
                        Operation::Mul,
                        (g0[(#[trigger] self@.data@[k])@].data * g0[other@.data@[k]@].data) as i64,
                        self@.data@[k]@,
                        other@.data@[k]@,
                    ),
            decreases n - i,
        {
            let u = self.internal.data[i];
            let v = other.internal.data[i];
            let e = u.mul(&v, g);
            data.push(e);
            i = i + 1;
        }
        Tensor::new(data, self.shape())
    }

    /// Broadcast product with one scalar node: a same-shaped tensor filled
    /// with copies of that single node's handle is built, then multiplied
    /// element-wise, so every result element shares the one scalar operand.
    pub fn mul_value(&self, other: &Value, g: &mut Graph) -> (r: Tensor)
        requires
            graph_wf(old(g)@),
            tensor_wf(self@),
            tensor_valid(self@, old(g)@),
            other.valid(old(g)@),
            forall|i: int|
                0 <= i < self@.data@.len() ==> in_i64(
                    old(g)@[(#[trigger] self@.data@[i])@].data * old(g)@[other@].data,
                ),
        ensures
            graph_wf(final(g)@),
            final(g)@.len() == old(g)@.len() + self@.data@.len(),
            forall|i: int| 0 <= i < old(g)@.len() ==> final(g)@[i] == old(g)@[i],
            r@.shape@ == self@.shape@,
            r@.data@.len() == self@.data@.len(),
            tensor_wf(r@),
            tensor_valid(r@, final(g)@),
            forall|i: int|
                0 <= i < r@.data@.len() ==> (#[trigger] r@.data@[i])@ == old(g)@.len() + i,
            forall|i: int|
                0 <= i < r@.data@.len() ==> is_op_node(
                    final(g)@[old(g)@.len() + i],
                    Operation::Mul,
                    (old(g)@[(#[trigger] self@.data@[i])@].data * old(g)@[other@].data) as i64,
                    self@.data@[i]@,
                    other@,
                ),
    {
        let tmp_data: Vec<Value> = vec![*other; self.internal.size];
        let tmp = Tensor::new(tmp_data, self.shape());
        self.mul(&tmp, g)
    }

    /// Element-wise negation, as multiplication by a single fresh constant
    /// -1 leaf: that leaf comes first in the arena, then one product node
    /// per element.
    pub fn neg(&self, g: &mut Graph) -> (r: Tensor)
        requires
            graph_wf(old(g)@),
            tensor_wf(self@),
            tensor_valid(self@, old(g)@),
            forall|i: int|
                0 <= i < self@.data@.len() ==> old(g)@[(#[trigger] self@.data@[i])@].data
                    > i64::MIN,
        ensures
            graph_wf(final(g)@),
            final(g)@.len() == old(g)@.len() + 1 + self@.data@.len(),
            forall|i: int| 0 <= i < old(g)@.len() ==> final(g)@[i] == old(g)@[i],
            is_leaf(final(g)@[old(g)@.len() as int], -1i64),
            r@.shape@ == self@.shape@,
            r@.data@.len() == self@.data@.len(),
            tensor_wf(r@),
            tensor_valid(r@, final(g)@),
            forall|i: int|
                0 <= i < r@.data@.len() ==> (#[trigger] r@.data@[i])@ == old(g)@.len() + 1 + i,
            forall|i: int|
                0 <= i < r@.data@.len() ==> is_op_node(
                    final(g)@[old(g)@.len() as int + 1 + i],
                    Operation::Mul,
                    (-old(g)@[(#[trigger] self@.data@[i])@].data) as i64,
                    self@.data@[i]@,
                    old(g)@.len() as int,
                ),
    {
        let m = Value::from(g, -1);
        self.mul_value(&m, g)
    }

    /// Element-wise difference, as `self + (-other)`: the constant -1 leaf
    /// and the negation nodes come first, then one addition node per
    /// element.
    pub fn sub(&self, other: &Tensor, g: &mut Graph) -> (r: Tensor)
        requires
            graph_wf(old(g)@),
            tensor_wf(self@),
            tensor_wf(other@),
            tensor_valid(self@, old(g)@),
            tensor_valid(other@, old(g)@),
            self@.shape@ == other@.shape@,
            forall|i: int|
                0 <= i < other@.data@.len() ==> old(g)@[(#[trigger] other@.data@[i])@].data
                    > i64::MIN,
            forall|i: int|
                0 <= i < self@.data@.len() ==> in_i64(
                    old(g)@[(#[trigger] self@.data@[i])@].data - old(g)@[other@.data@[i]@].data,
                ),
        ensures
            graph_wf(final(g)@),
            final(g)@.len() == old(g)@.len() + 1 + 2 * self@.data@.len(),
            forall|i: int| 0 <= i < old(g)@.len() ==> final(g)@[i] == old(g)@[i],
            r@.shape@ == self@.shape@,
            r@.data@.len() == self@.data@.len(),
            tensor_wf(r@),
            tensor_valid(r@, final(g)@),
            forall|i: int|
                0 <= i < r@.data@.len() ==> (#[trigger] r@.data@[i])@ == old(g)@.len() + 1
                    + self@.data@.len() + i,
            forall|i: int|
                0 <= i < r@.data@.len() ==> is_op_node(
                    final(g)@[old(g)@.len() as int + 1 + self@.data@.len() + i],
                    Operation::Add,
                    (old(g)@[(#[trigger] self@.data@[i])@].data
                        - old(g)@[other@.data@[i]@].data) as i64,
                    self@.data@[i]@,
                    old(g)@.len() as int + 1 + i,
                ),
    {
        let n = other.neg(g);
        self.add(&n, g)
    }

    /// A snapshot of the elements' current gradients: a same-shaped tensor
    /// of fresh leaf nodes, each carrying the corresponding element's
    /// gradient as its value. It is a copy, not a live view.
    pub fn gradient(&self, g: &mut Graph) -> (r: Tensor)
        requires
            graph_wf(old(g)@),
            tensor_wf(self@),
            tensor_valid(self@, old(g)@),
        ensures
            graph_wf(final(g)@),
            final(g)@.len() == old(g)@.len() + self@.data@.len(),
            forall|i: int| 0 <= i < old(g)@.len() ==> final(g)@[i] == old(g)@[i],
            r@.shape@ == self@.shape@,
            r@.data@.len() == self@.data@.len(),
            tensor_wf(r@),
            tensor_valid(r@, final(g)@),
            forall|i: int|
                0 <= i < r@.data@.len() ==> (#[trigger] r@.data@[i])@ == old(g)@.len() + i,
            forall|i: int|
                0 <= i < r@.data@.len() ==> is_leaf(
                    final(g)@[old(g)@.len() + i],
                    old(g)@[(#[trigger] self@.data@[i])@].gradient,
                ),
    {
        let ghost g0: Seq<ValueInternal> = g@;
        let n = self.internal.data.len();
        let mut data: Vec<Value> = Vec::new();
        let mut i: usize = 0;
        while i < n
            invariant
                i <= n,
                n == self@.data@.len(),
                graph_wf(g0),
                graph_wf(g@),
                tensor_valid(self@, g0),
                g@.len() == g0.len() + i,
                forall|k: int| 0 <= k < g0.len() ==> g@[k] == g0[k],
                data@.len() == i,
                forall|k: int| 0 <= k < i ==> (#[trigger] data@[k])@ == g0.len() + k,
                forall|k: int|
                    0 <= k < i ==> is_leaf(
                        g@[g0.len() + k],
                        g0[(#[trigger] self@.data@[k])@].gradient,
                    ),
            decreases n - i,
        {
            let e = self.internal.data[i];
            let gr = e.gradient(g);
            let leaf = Value::from(g, gr);
            data.push(leaf);
            i = i + 1;
        }
        Tensor::new(data, self.shape())
    }

    /// Resets the gradient of every element's node to zero; nodes the tensor
    /// does not hold are untouched. Repeating it changes nothing further.
    pub fn zero_grad(&self, g: &mut Graph)
        requires
            tensor_valid(self@, old(g)@),
        ensures
            final(g)@.len() == old(g)@.len(),
            forall|k: int|
                0 <= k < old(g)@.len() ==> final(g)@[k] == with_gradient(
                    old(g)@[k],
                    if tensor_has_elem(self@, k) {
                        0i64
                    } else {
                        old(g)@[k].gradient
                    },
                ),
    {
        let ghost g0: Seq<ValueInternal> = g@;
        let n = self.internal.data.len();
        let mut i: usize = 0;
        while i < n
            invariant
                i <= n,
                n == self@.data@.len(),
                tensor_valid(self@, g0),
                g@.len() == g0.len(),
                forall|k: int|
                    0 <= k < g0.len() ==> g@[k] == with_gradient(
                        g0[k],
                        if tensor_has_elem_upto(self@, k, i as int) {
                            0i64
                        } else {
                            g0[k].gradient
                        },
                    ),
            decreases n - i,
        {
            let e = self.internal.data[i];
            e.zero_grad(g);
            proof {
                let gi = i as int;
                assert forall|k: int| 0 <= k < g0.len() implies g@[k] == with_gradient(
                    g0[k],
                    if tensor_has_elem_upto(self@, k, gi + 1) {
                        0i64
                    } else {
                        g0[k].gradient
                    },
                ) by {
                    if k == e@ {
                        assert(self@.data@[gi]@ == k);
                        assert(tensor_has_elem_upto(self@, k, gi + 1));
                    } else {
                        assert(tensor_has_elem_upto(self@, k, gi + 1) <==> tensor_has_elem_upto(
                            self@,
                            k,
                            gi,
                        ));
                    }
                }
            }
            i = i + 1;
        }
    }

    /// One gradient-descent step on every element, in order: each element's
    /// node gains `factor * gradient` onto its value. A node shared by
    /// several elements is stepped once per occurrence.
    pub fn update(&self, factor: i64, g: &mut Graph)
        requires
            tensor_valid(self@, old(g)@),
            tensor_update_ok(old(g)@, self@.data@, factor as int, self@.data@.len() as int),
        ensures
            final(g)@ == tensor_update_upto(
                old(g)@,
                self@.data@,
                factor as int,
                self@.data@.len() as int,
            ),
    {
        let ghost g0: Seq<ValueInternal> = g@;
        let n = self.internal.data.len();
        let mut i: usize = 0;
        while i < n
            invariant
                i <= n,
                n == self@.data@.len(),
                tensor_valid(self@, g0),
                tensor_update_ok(g0, self@.data@, factor as int, n as int),
                g@ == tensor_update_upto(g0, self@.data@, factor as int, i as int),
            decreases n - i,
        {
            proof {
                lemma_tensor_update_len(g0, self@.data@, factor as int, i as int);
            }
            let e = self.internal.data[i];
            e.update(factor, g);
            i = i + 1;
        }
    }

    /// Differentiation rooted at a whole array is out of this core's scope:
    /// it would need a reduction of the elements to one scalar root, which
    /// is deliberately not defined. Always signals that, and does nothing.
    pub fn backward(&self) -> (r: Result<(), TensorError>)
        ensures
            r == Err::<(), TensorError>(TensorError::UnimplementedReduction),
    {
        Err(TensorError::UnimplementedReduction)
    }
}

} // verus!
