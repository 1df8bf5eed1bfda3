use regrad::tensor::compute_strides;
use regrad::tensor::size_of_shape;
use regrad::tensor::Tensor;
use regrad::tensor::TensorError;
use regrad::value::Graph;
use regrad::value::Value;

#[test]
fn strides_are_row_major_suffix_products() {
    assert_eq!(compute_strides(vec![2, 3, 4]), vec![12, 4, 1]);
    assert_eq!(compute_strides(vec![5]), vec![1]);
    assert_eq!(compute_strides(vec![4, 7]), vec![7, 1]);
    assert_eq!(compute_strides(vec![]), Vec::<usize>::new());
    assert_eq!(size_of_shape(&vec![2, 3, 4]), 24);
    assert_eq!(size_of_shape(&vec![]), 1);
}

#[test]
fn zeros_and_ones_have_expected_values_and_zero_gradients() {
    let mut g = Graph::new();
    let z = Tensor::zeros(&mut g, vec![2, 3]);
    assert_eq!(z.size(), 6);
    assert_eq!(z.shape(), vec![2, 3]);
    assert_eq!(z.strides(), vec![3, 1]);
    for v in z.data() {
        assert_eq!(v.data(&g), 0);
        assert_eq!(v.gradient(&g), 0);
    }

    let o = Tensor::ones(&mut g, vec![4]);
    assert_eq!(o.size(), 4);
    for v in o.data() {
        assert_eq!(v.data(&g), 1);
        assert_eq!(v.gradient(&g), 0);
    }
}

#[test]
fn reshape_to_incompatible_size_always_fails() {
    let mut g = Graph::new();
    let mut t = Tensor::zeros(&mut g, vec![2, 3]);

    assert!(!t.checked_reshape(vec![4, 2]));
    assert!(!t.checked_reshape(vec![]));
    assert!(!t.checked_reshape(vec![7]));
    // Nothing changed on failure.
    assert_eq!(t.shape(), vec![2, 3]);
    assert_eq!(t.strides(), vec![3, 1]);
    assert_eq!(t.size(), 6);

    assert!(t.checked_reshape(vec![3, 2]));
    assert_eq!(t.shape(), vec![3, 2]);
    assert_eq!(t.strides(), vec![2, 1]);
    assert_eq!(t.size(), 6);

    t.reshape(vec![6]);
    assert_eq!(t.shape(), vec![6]);
    assert_eq!(t.strides(), vec![1]);
    assert_eq!(t.size(), 6);
}

#[test]
fn tensor_backward_is_a_deliberate_hard_failure() {
    let mut g = Graph::new();
    let t = Tensor::ones(&mut g, vec![2]);
    assert_eq!(t.backward(), Err(TensorError::UnimplementedReduction));
}

#[test]
fn tensor_gradient_snapshot_and_zero_grad() {
    let mut g = Graph::new();
    let t1 = Tensor::new(vec![Value::from(&mut g, 2), Value::from(&mut g, 5)], vec![2]);
    let t2 = Tensor::new(vec![Value::from(&mut g, 3), Value::from(&mut g, 7)], vec![2]);
    let p = t1.mul(&t2, &mut g);

    // Differentiate each product element separately; gradients accumulate
    // into the shared leaves.
    for v in p.data() {
        v.backward(&mut g);
    }
    let snap = t1.gradient(&mut g);
    assert_eq!(
        snap.data().iter().map(|v| v.data(&g)).collect::<Vec<i64>>(),
        vec![3, 7]
    );
    assert_eq!(snap.shape(), vec![2]);

    t1.zero_grad(&mut g);
    assert_eq!(
        t1.data().iter().map(|v| v.gradient(&g)).collect::<Vec<i64>>(),
        vec![0, 0]
    );
    // The snapshot is a copy, not a live view.
    assert_eq!(
        snap.data().iter().map(|v| v.data(&g)).collect::<Vec<i64>>(),
        vec![3, 7]
    );
}

#[test]
fn tensor_update_steps_every_element() {
    let mut g = Graph::new();
    let t1 = Tensor::new(
        vec![Value::from(&mut g, 10), Value::from(&mut g, 20)],
        vec![2],
    );
    let t2 = Tensor::new(vec![Value::from(&mut g, 3), Value::from(&mut g, 4)], vec![2]);
    let p = t1.mul(&t2, &mut g);
    for v in p.data() {
        v.backward(&mut g);
    }
    // Gradients toward t1's elements are t2's values.
    t1.update(2, &mut g);
    assert_eq!(
        t1.data().iter().map(|v| v.data(&g)).collect::<Vec<i64>>(),
        vec![10 + 2 * 3, 20 + 2 * 4]
    );
}
