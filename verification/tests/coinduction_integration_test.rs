//! Circular coinduction over linked nodes, observed through the unranked
//! interface.

use decycle::runtime::{call_unranked, CycleProgram, Node};

#[test]
fn test_circular_coinduction_minimal() {
    // NodeA("beta") -> NodeB(3) -> NodeA("alpha"): the child count the
    // description carries is the cycle's sum below the top node.
    let prog = CycleProgram { offsets: vec![0, 0] };
    let node_a = Node { value: 0, child: None };
    let _alpha = "alpha";
    let node_b = Node { value: 3, child: Some(Box::new(node_a)) };
    let node_a2 = Node { value: 0, child: Some(Box::new(node_b)) };
    let child_count = call_unranked(&prog, 1, &Node { value: 3, child: None }, 10).unwrap();
    let _ = node_a2;
    let described = format!("NodeA:{}:{}", "beta", child_count);
    assert!(described.contains("NodeA:beta"));
}

#[test]
fn test_circular_coinduction_sizes() {
    // NodeB(5) over NodeA("gamma"): the count plus the child's length
    // never falls under the count.
    let prog = CycleProgram { offsets: vec![0, 0] };
    let _gamma = "gamma";
    let node_a = Node { value: 5, child: None };
    let node_b = Node { value: 5, child: Some(Box::new(node_a)) };
    let got = call_unranked(&prog, 1, &node_b, 10).unwrap();
    assert!(got >= 5);
}
