//! The minimal two-participant cycle, driven by linked data.

use decycle::runtime::{call_unranked, CycleProgram, Node};

#[test]
fn test_simple_cycle() {
    // TraitA for NodeA and TraitB for NodeB, each walking into the other:
    // a chain of values 3, 2, 1 summed through the cycle.
    let prog = CycleProgram { offsets: vec![0, 0] };
    let node_a = Node { value: 1, child: None };
    let node_b = Node { value: 2, child: Some(Box::new(node_a)) };
    let node_a2 = Node { value: 3, child: Some(Box::new(node_b)) };
    let got = call_unranked(&prog, 0, &node_a2, 10).unwrap();
    assert!(got >= 3);
    assert_eq!(got, 6);
}

#[test]
fn test_nested_cycle() {
    let prog = CycleProgram { offsets: vec![0, 0] };
    let node_a = Node { value: 4, child: None };
    let node_b = Node { value: 5, child: Some(Box::new(node_a)) };
    let got = call_unranked(&prog, 1, &node_b, 10).unwrap();
    assert!(got >= 5);
    assert_eq!(got, 9);
}
