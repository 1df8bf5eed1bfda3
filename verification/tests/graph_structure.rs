use regrad::value::Graph;
use regrad::value::Operation;
use regrad::value::Value;
use regrad::value::ValueInternal;

// Negation and subtraction are compositions: they introduce the constant -1
// leaf and the intermediate product node into the arena rather than being
// primitive operations.
#[test]
fn neg_and_sub_introduce_intermediate_nodes() {
    let mut g = Graph::new();
    let a = Value::from(&mut g, 5);
    let b = Value::from(&mut g, 2);
    assert_eq!(g.len(), 2);

    let n = b.neg(&mut g);
    // One constant -1 leaf plus one product node.
    assert_eq!(g.len(), 4);
    assert_eq!(n.data(&g), -2);

    let d = a.sub(&b, &mut g);
    // Another -1 leaf, another product, and the addition node.
    assert_eq!(g.len(), 7);
    assert_eq!(d.data(&g), 3);
}

#[test]
fn leaves_start_with_zero_gradient_and_no_operation() {
    let mut g = Graph::new();
    let x = Value::from(&mut g, 42);
    assert_eq!(x.data(&g), 42);
    assert_eq!(x.gradient(&g), 0);

    // Handle equality is node identity.
    let y = Value::from(&mut g, 42);
    assert_eq!(x, x);
    assert_ne!(x, y);
}

#[test]
fn node_records_are_structurally_comparable() {
    let n1 = ValueInternal::new(3, None, Some(Operation::Add), vec![0, 1]);
    let n2 = ValueInternal::new(3, None, Some(Operation::Add), vec![0, 1]);
    let n3 = ValueInternal::new(3, None, Some(Operation::Mul), vec![0, 1]);
    assert_eq!(n1, n2);
    assert_ne!(n1, n3);
    assert_eq!(n1.gradient, 0);
    assert_eq!(n1.data, 3);
    assert_eq!(n1.previous, vec![0, 1]);
}
