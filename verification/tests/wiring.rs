use corrosive::build::wiring::{expiring_members, output_positions};

fn v(xs: &[&str]) -> Vec<String> {
    xs.iter().map(|s| s.to_string()).collect()
}

#[test]
fn references_to_other_entities_expire() {
    let members = v(&["Pos", "Ref<Pos>", "LockedRef<Vel>", "Member<Node>", "Refs", "Locked<Pos>"]);
    assert_eq!(expiring_members(&members), vec![1, 2, 3]);
    assert_eq!(expiring_members(&vec![]), Vec::<usize>::new());
}

#[test]
fn output_components_are_placed_in_sorted_order() {
    assert_eq!(output_positions(&v(&["Vel", "Pos", "Acc"])), vec![2, 1, 0]);
    assert_eq!(output_positions(&v(&["B", "A", "B"])), vec![1, 0, 0]);
    assert_eq!(output_positions(&vec![]), Vec::<usize>::new());
}
