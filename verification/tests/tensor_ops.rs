use regrad::tensor::Tensor;
use regrad::value::Graph;
use regrad::value::Value;

#[test]
fn test_add() {
    let mut g = Graph::new();
    let t1 = Tensor::new(vec![Value::from(&mut g, 1), Value::from(&mut g, 2)], vec![2]);
    let t2 = Tensor::new(vec![Value::from(&mut g, 3), Value::from(&mut g, 4)], vec![2]);

    let t3 = t1.add(&t2, &mut g);

    assert_eq!(
        t3.data().iter().map(|v| v.data(&g)).collect::<Vec<i64>>(),
        vec![4, 6]
    );
}

#[test]
fn test_mul() {
    let mut g = Graph::new();
    let t1 = Tensor::new(vec![Value::from(&mut g, 1), Value::from(&mut g, 2)], vec![2]);
    let t2 = Tensor::new(vec![Value::from(&mut g, 3), Value::from(&mut g, 4)], vec![2]);

    let t3 = t1.mul(&t2, &mut g);

    assert_eq!(
        t3.data().iter().map(|v| v.data(&g)).collect::<Vec<i64>>(),
        vec![3, 8]
    );
}

#[test]
fn test_mul_value() {
    let mut g = Graph::new();
    let t1 = Tensor::new(vec![Value::from(&mut g, 1), Value::from(&mut g, 2)], vec![2]);
    let v1 = Value::from(&mut g, 3);

    let t2 = t1.mul_value(&v1, &mut g);

    assert_eq!(
        t2.data().iter().map(|v| v.data(&g)).collect::<Vec<i64>>(),
        vec![3, 6]
    );
}

#[test]
fn test_neg() {
    let mut g = Graph::new();
    let t1 = Tensor::new(vec![Value::from(&mut g, 1), Value::from(&mut g, 2)], vec![2]);

    let t2 = t1.neg(&mut g);

    assert_eq!(
        t2.data().iter().map(|v| v.data(&g)).collect::<Vec<i64>>(),
        vec![-1, -2]
    );
}

#[test]
fn test_sub() {
    let mut g = Graph::new();
    let t1 = Tensor::new(vec![Value::from(&mut g, 1), Value::from(&mut g, 2)], vec![2]);
    let t2 = Tensor::new(vec![Value::from(&mut g, 3), Value::from(&mut g, 4)], vec![2]);

    let t3 = t1.sub(&t2, &mut g);

    assert_eq!(
        t3.data().iter().map(|v| v.data(&g)).collect::<Vec<i64>>(),
        vec![-2, -2]
    );
}
