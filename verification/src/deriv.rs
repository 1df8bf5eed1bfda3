//! The calculus behind the backward engine: the adjoint recurrence defining
//! the partial derivative of a root node with respect to every node of the
//! graph, and the theorem that a backward pass computes exactly that.

use crate::value::ValueInternal;
use crate::value::backward_grads;
use crate::value::backward_upto;
use crate::value::coeff0;
use crate::value::coeff1;
use crate::value::graph_wf;
use crate::value::grads_of;
use crate::value::node_wf;
use vstd::prelude::*;

verus! {

/// Node `j` lists node `i` among its operands.
pub open spec fn uses_operand(nodes: Seq<ValueInternal>, j: int, i: int) -> bool {
    nodes[j].operation is Some && (nodes[j].previous@[0] as int == i || nodes[j].previous@[1]
        as int == i)
}

/// Node `i` contributes to the root: it is the root itself, or an operand
/// of some node that does.
pub open spec fn reachable(nodes: Seq<ValueInternal>, root: int, i: int) -> bool
    decreases root - i,
{
    if i == root {
        true
    } else if i < 0 || i > root {
        false
    } else {
        exists|j: int|
            i < j <= root && reachable(nodes, root, j) && #[trigger] uses_operand(nodes, j, i)
    }
}

/// The weight with which node `j` passes gradient to node `i`: the sum of
/// the local derivatives at every operand slot of `j` holding `i`.
pub open spec fn edge_weight(nodes: Seq<ValueInternal>, j: int, i: int) -> int {
    if nodes[j].operation is Some {
        (if nodes[j].previous@[0] as int == i {
            coeff0(nodes, j)
        } else {
            0
        }) + (if nodes[j].previous@[1] as int == i {
            coeff1(nodes, j)
        } else {
            0
        })
    } else {
        0
    }
}

/// Sum, over the consumers `t` of node `i` with `j <= t <= root`, of the
/// consumer's derivative times its local derivative toward `i`.
pub open spec fn consumer_sum(nodes: Seq<ValueInternal>, root: int, i: int, j: int) -> int
    decreases root - i, 1int, root + 1 - j,
{
    if j > root || j <= i || i < 0 {
        0
    } else {
        deriv(nodes, root, j) * edge_weight(nodes, j, i) + consumer_sum(nodes, root, i, j + 1)
    }
}

/// The partial derivative of the root's value with respect to node `i`'s
/// value, by the adjoint recurrence of reverse-mode differentiation: 1 at
/// the root itself; otherwise the sum over all of `i`'s consumers of the
/// consumer's own derivative times its local derivative toward `i`. Summing
/// over consumers is what sums over every path from the root down to `i`.
pub open spec fn deriv(nodes: Seq<ValueInternal>, root: int, i: int) -> int
    decreases root - i, 2int, 0int,
{
    if i == root {
        1
    } else if i < 0 || i > root {
        0
    } else {
        consumer_sum(nodes, root, i, i + 1)
    }
}

/// Every consumer of an unreachable node is unreachable, so the adjoint sum
/// of an unreachable node vanishes term by term.
proof fn lemma_unreachable_consumer_sum_zero(nodes: Seq<ValueInternal>, root: int, i: int, j: int)
    requires
        graph_wf(nodes),
        0 <= root < nodes.len(),
        0 <= i <= root,
        !reachable(nodes, root, i),
        i < j,
    ensures
        consumer_sum(nodes, root, i, j) == 0,
    decreases root - i, root + 2 - j,
{
    if j <= root {
        if edge_weight(nodes, j, i) != 0 {
            assert(uses_operand(nodes, j, i));
            if reachable(nodes, root, j) {
                assert(i < j <= root && reachable(nodes, root, j) && uses_operand(nodes, j, i));
                assert(reachable(nodes, root, i));
            } else {
                lemma_unreachable_deriv_zero(nodes, root, j);
            }
        }
        assert(deriv(nodes, root, j) * edge_weight(nodes, j, i) == 0);
        lemma_unreachable_consumer_sum_zero(nodes, root, i, j + 1);
    }
}

/// A node the root cannot reach has derivative zero.
proof fn lemma_unreachable_deriv_zero(nodes: Seq<ValueInternal>, root: int, i: int)
    requires
        graph_wf(nodes),
        0 <= root < nodes.len(),
        0 <= i <= root,
        !reachable(nodes, root, i),
    ensures
        deriv(nodes, root, i) == 0,
    decreases root - i, root + 2 - i,
{
    lemma_unreachable_consumer_sum_zero(nodes, root, i, i + 1);
}

/// The marks standing after the pass has processed all indices down to `j`:
/// the root, and every operand of a reachable node already processed.
spec fn marked_from(nodes: Seq<ValueInternal>, root: int, j: int, i: int) -> bool {
    i == root || exists|t: int|
        j <= t <= root && reachable(nodes, root, t) && #[trigger] uses_operand(nodes, t, i)
}

/// The invariant of the descending pass, at the moment indices `root`
/// down to `j` have been processed: marks match `marked_from`; a processed
/// node holds its full derivative if reachable and 0 otherwise; an
/// unprocessed node holds the partial adjoint sum over the consumers
/// processed so far.
proof fn lemma_backward_invariant(nodes: Seq<ValueInternal>, root: int, j: int)
    requires
        graph_wf(nodes),
        0 <= root < nodes.len(),
        0 <= j <= root + 1,
        forall|i: int| 0 <= i < nodes.len() ==> nodes[i].gradient == 0,
    ensures
        backward_upto(nodes, root, j).marks.len() == nodes.len(),
        backward_upto(nodes, root, j).grads.len() == nodes.len(),
        forall|i: int|
            0 <= i < nodes.len() ==> backward_upto(nodes, root, j).marks[i] == marked_from(
                nodes,
                root,
                j,
                i,
            ),
        forall|i: int|
            j <= i < nodes.len() ==> backward_upto(nodes, root, j).grads[i] == (if reachable(
                nodes,
                root,
                i,
            ) {
                deriv(nodes, root, i)
            } else {
                0int
            }),
        forall|i: int|
            0 <= i < j ==> backward_upto(nodes, root, j).grads[i] == (if i == root {
                1int
            } else {
                0int
            }) + consumer_sum(nodes, root, i, j),
    decreases root + 1 - j,
{
    let st = backward_upto(nodes, root, j);
    if j == root + 1 {
        assert forall|i: int| 0 <= i < nodes.len() implies st.marks[i] == marked_from(
            nodes,
            root,
            j,
            i,
        ) by {
            if marked_from(nodes, root, j, i) && i != root {
                let t = choose|t: int|
                    j <= t <= root && reachable(nodes, root, t) && #[trigger] uses_operand(
                        nodes,
                        t,
                        i,
                    );
                assert(false);
            }
        }
        assert forall|i: int| root < i < nodes.len() implies st.grads[i] == 0int by {
            assert(grads_of(nodes)[i] == nodes[i].gradient as int);
        }
    } else {
        lemma_backward_invariant(nodes, root, j + 1);
        let pre = backward_upto(nodes, root, j + 1);
        assert(node_wf(nodes, j));

        // The mark at `j` is exactly reachability of `j`.
        assert(pre.marks[j] == reachable(nodes, root, j)) by {
            if marked_from(nodes, root, j + 1, j) && j != root {
                let t = choose|t: int|
                    j + 1 <= t <= root && reachable(nodes, root, t) && #[trigger] uses_operand(
                        nodes,
                        t,
                        j,
                    );
                assert(j < t <= root && reachable(nodes, root, t) && uses_operand(nodes, t, j));
                assert(reachable(nodes, root, j));
            }
            if reachable(nodes, root, j) && j != root {
                let t = choose|t: int|
                    j < t <= root && reachable(nodes, root, t) && #[trigger] uses_operand(
                        nodes,
                        t,
                        j,
                    );
                assert(marked_from(nodes, root, j + 1, j));
            }
        }

        // The gradient at `j` is already final: the full derivative when
        // reachable, untouched zero otherwise.
        assert(pre.grads[j] == (if reachable(nodes, root, j) {
            deriv(nodes, root, j)
        } else {
            0int
        })) by {
            if !reachable(nodes, root, j) {
                lemma_unreachable_consumer_sum_zero(nodes, root, j, j + 1);
            }
        }

        if !pre.marks[j] || nodes[j].operation is None {
            // Nothing propagates; the adjoint term of `j` is zero.
            assert(st == pre);
            assert forall|i: int| 0 <= i < nodes.len() implies st.marks[i] == marked_from(
                nodes,
                root,
                j,
                i,
            ) by {
                assert(pre.marks[i] == marked_from(nodes, root, j + 1, i));
                if marked_from(nodes, root, j, i) && i != root {
                    let t = choose|t: int|
                        j <= t <= root && reachable(nodes, root, t) && #[trigger] uses_operand(
                            nodes,
                            t,
                            i,
                        );
                    if t == j {
                        assert(uses_operand(nodes, j, i) && reachable(nodes, root, j));
                        assert(pre.marks[j]);
                        assert(nodes[j].operation is Some);
                        assert(false);
                    } else {
                        assert(marked_from(nodes, root, j + 1, i));
                    }
                }
                if marked_from(nodes, root, j + 1, i) && i != root {
                    let t = choose|t: int|
                        j + 1 <= t <= root && reachable(nodes, root, t) && #[trigger] uses_operand(
                            nodes,
                            t,
                            i,
                        );
                    assert(marked_from(nodes, root, j, i));
                }
            }
            assert forall|i: int| 0 <= i < j implies st.grads[i] == (if i == root {
                1int
            } else {
                0int
            }) + consumer_sum(nodes, root, i, j) by {
                if !reachable(nodes, root, j) {
                    lemma_unreachable_deriv_zero(nodes, root, j);
                }
                assert(deriv(nodes, root, j) * edge_weight(nodes, j, i) == 0);
            }
        } else {
            // `j` is reachable and carries an operation: both operands are
            // marked and receive their adjoint contributions.
            let u = nodes[j].previous@[0] as int;
            let v = nodes[j].previous@[1] as int;
            let gr = pre.grads[j];
            assert(gr == deriv(nodes, root, j));
            assert(0 <= u < j && 0 <= v < j);

            assert forall|i: int| 0 <= i < nodes.len() implies st.marks[i] == marked_from(
                nodes,
                root,
                j,
                i,
            ) by {
                assert(pre.marks[i] == marked_from(nodes, root, j + 1, i));
                if i == u || i == v {
                    assert(uses_operand(nodes, j, i));
                    assert(j <= j <= root && reachable(nodes, root, j));
                    assert(marked_from(nodes, root, j, i));
                    assert(st.marks[i]);
                } else {
                    assert(st.marks[i] == pre.marks[i]);
                    if marked_from(nodes, root, j, i) && i != root {
                        let t = choose|t: int|
                            j <= t <= root && reachable(nodes, root, t) && #[trigger] uses_operand(
                                nodes,
                                t,
                                i,
                            );
                        if t == j {
                            assert(i == u || i == v);
                            assert(false);
                        } else {
                            assert(marked_from(nodes, root, j + 1, i));
                        }
                    }
                    if marked_from(nodes, root, j + 1, i) && i != root {
                        let t = choose|t: int|
                            j + 1 <= t <= root && reachable(nodes, root, t)
                                && #[trigger] uses_operand(nodes, t, i);
                        assert(marked_from(nodes, root, j, i));
                    }
                }
            }

            assert forall|i: int| 0 <= i < j implies st.grads[i] == (if i == root {
                1int
            } else {
                0int
            }) + consumer_sum(nodes, root, i, j) by {
                assert(pre.grads[i] == (if i == root {
                    1int
                } else {
                    0int
                }) + consumer_sum(nodes, root, i, j + 1));
                let c0 = coeff0(nodes, j);
                let c1 = coeff1(nodes, j);
                if i == u && i == v {
                    assert(st.grads[i] == pre.grads[i] + c0 * gr + c1 * gr);
                    assert(edge_weight(nodes, j, i) == c0 + c1);
                    assert(gr * (c0 + c1) == c0 * gr + c1 * gr) by (nonlinear_arith);
                    assert(deriv(nodes, root, j) * edge_weight(nodes, j, i) == c0 * gr + c1 * gr);
                } else if i == u {
                    assert(st.grads[i] == pre.grads[i] + c0 * gr);
                    assert(edge_weight(nodes, j, i) == c0);
                    assert(gr * c0 == c0 * gr) by (nonlinear_arith);
                } else if i == v {
                    assert(st.grads[i] == pre.grads[i] + c1 * gr);
                    assert(edge_weight(nodes, j, i) == c1);
                    assert(gr * c1 == c1 * gr) by (nonlinear_arith);
                } else {
                    assert(st.grads[i] == pre.grads[i]);
                    assert(edge_weight(nodes, j, i) == 0);
                }
            }
        }
    }
}

/// Law (gradient correctness, exactly): started from all-zero gradients, a
/// backward pass rooted at `root` leaves in every node's gradient slot the
/// exact partial derivative of the root's value with respect to that node,
/// as the adjoint recurrence `deriv` defines it — and the root's own slot
/// holds exactly 1.
pub proof fn lemma_backward_computes_derivative(nodes: Seq<ValueInternal>, root: int)
    requires
        graph_wf(nodes),
        0 <= root < nodes.len(),
        forall|i: int| 0 <= i < nodes.len() ==> nodes[i].gradient == 0,
    ensures
        forall|i: int|
            0 <= i < nodes.len() ==> backward_grads(nodes, root)[i] == deriv(nodes, root, i),
        backward_grads(nodes, root)[root] == 1,
{
    lemma_backward_invariant(nodes, root, 0);
    assert forall|i: int| 0 <= i < nodes.len() implies backward_grads(nodes, root)[i] == deriv(
        nodes,
        root,
        i,
    ) by {
        if !reachable(nodes, root, i) && 0 <= i <= root {
            lemma_unreachable_deriv_zero(nodes, root, i);
        }
    }
}

} // verus!
