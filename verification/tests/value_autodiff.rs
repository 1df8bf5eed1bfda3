use regrad::value::Graph;
use regrad::value::Value;

// The reference scenario, in whole numbers: leaves a and b, c = (a*a)*b.
#[test]
fn scenario_product_of_square() {
    let mut g = Graph::new();
    let a = Value::from(&mut g, 12);
    let b = Value::from(&mut g, 34);

    let aa = a.mul(&a, &mut g);
    let c = aa.mul(&b, &mut g);

    assert_eq!(c.data(&g), 4896);

    c.backward(&mut g);

    assert_eq!(a.gradient(&g), 816); // 2 * a * b
    assert_eq!(b.gradient(&g), 144); // a * a
    assert_eq!(c.gradient(&g), 1);
}

// Forward values equal the same expressions evaluated directly.
#[test]
fn forward_composition_matches_direct_evaluation() {
    let mut g = Graph::new();
    let x = Value::from(&mut g, 7);
    let y = Value::from(&mut g, -3);

    let s = x.add(&y, &mut g);
    let p = x.mul(&y, &mut g);
    let n = y.neg(&mut g);
    let d = x.sub(&y, &mut g);
    let mix = s.mul(&d, &mut g);

    assert_eq!(s.data(&g), 7 + -3);
    assert_eq!(p.data(&g), 7 * -3);
    assert_eq!(n.data(&g), 3);
    assert_eq!(d.data(&g), 7 - -3);
    assert_eq!(mix.data(&g), (7 + -3) * (7 - -3));
    // Builders never mutate their inputs' values.
    assert_eq!(x.data(&g), 7);
    assert_eq!(y.data(&g), -3);
}

// A node used through two paths receives the sum of both contributions.
#[test]
fn shared_subexpression_gradient_sums() {
    let mut g = Graph::new();
    let x = Value::from(&mut g, 3);
    let y = x.mul(&x, &mut g);

    y.backward(&mut g);

    assert_eq!(x.gradient(&g), 2 * 3);
    assert_eq!(y.gradient(&g), 1);
}

// The root's own gradient is exactly 1 after backward, whatever the graph.
#[test]
fn root_gradient_is_one() {
    let mut g = Graph::new();
    let a = Value::from(&mut g, 5);
    let b = Value::from(&mut g, 6);
    let c = a.sub(&b, &mut g);
    c.backward(&mut g);
    assert_eq!(c.gradient(&g), 1);

    let lone = Value::from(&mut g, 9);
    lone.backward(&mut g);
    assert_eq!(lone.gradient(&g), 1);
}

// Gradients of sum and difference: +1 toward each addend, -1 toward the
// subtrahend.
#[test]
fn add_sub_gradients() {
    let mut g = Graph::new();
    let a = Value::from(&mut g, 10);
    let b = Value::from(&mut g, 4);
    let d = a.sub(&b, &mut g);
    d.backward(&mut g);
    assert_eq!(d.data(&g), 6);
    assert_eq!(a.gradient(&g), 1);
    assert_eq!(b.gradient(&g), -1);
}

// A second backward pass without zero_grad accumulates onto stale
// gradients instead of replacing them.
#[test]
fn backward_accumulates_without_zero_grad() {
    let mut g = Graph::new();
    let x = Value::from(&mut g, 3);
    let y = x.mul(&x, &mut g);

    y.backward(&mut g);
    assert_eq!(x.gradient(&g), 6);
    y.backward(&mut g);
    assert_eq!(x.gradient(&g), 12);
}

// zero_grad resets to exactly 0, and doing it again changes nothing.
#[test]
fn zero_grad_is_idempotent() {
    let mut g = Graph::new();
    let x = Value::from(&mut g, 3);
    let y = x.mul(&x, &mut g);
    y.backward(&mut g);
    assert_ne!(x.gradient(&g), 0);

    x.zero_grad(&mut g);
    y.zero_grad(&mut g);
    assert_eq!(x.gradient(&g), 0);
    assert_eq!(y.gradient(&g), 0);

    x.zero_grad(&mut g);
    y.zero_grad(&mut g);
    assert_eq!(x.gradient(&g), 0);
    assert_eq!(y.gradient(&g), 0);

    // A fresh pass after the reset reproduces the fresh gradients.
    y.backward(&mut g);
    assert_eq!(x.gradient(&g), 6);
}

// The central difference of a quadratic equals its exact derivative, and
// backward computes exactly that.
#[test]
fn gradient_matches_central_difference() {
    let f = |v: i64| -> i64 {
        let mut g = Graph::new();
        let x = Value::from(&mut g, v);
        let b = Value::from(&mut g, 2);
        let xx = x.mul(&x, &mut g);
        let y = xx.add(&b, &mut g);
        y.data(&g)
    };

    let mut g = Graph::new();
    let x = Value::from(&mut g, 5);
    let b = Value::from(&mut g, 2);
    let xx = x.mul(&x, &mut g);
    let y = xx.add(&b, &mut g);
    y.backward(&mut g);

    assert_eq!(x.gradient(&g), (f(6) - f(4)) / 2);
    assert_eq!(b.gradient(&g), 1);
}

// One gradient-descent step adds factor * gradient onto the value and
// leaves the gradient itself alone.
#[test]
fn update_applies_descent_step() {
    let mut g = Graph::new();
    let x = Value::from(&mut g, 10);
    let y = x.mul(&x, &mut g);
    y.backward(&mut g);
    assert_eq!(x.gradient(&g), 20);

    x.update(2, &mut g);
    assert_eq!(x.data(&g), 10 + 2 * 20);
    assert_eq!(x.gradient(&g), 20);
}
