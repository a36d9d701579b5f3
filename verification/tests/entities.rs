use corrosive::build::entities::entity_fields;

fn texts(v: &[&str]) -> Vec<String> {
    v.iter().map(|s| s.to_string()).collect()
}

fn pairs(v: &[(&str, &str)]) -> Vec<(String, String)> {
    v.iter().map(|(a, b)| (a.to_string(), b.to_string())).collect()
}

#[test]
fn fields_are_split_at_commas_and_ordered_by_type() {
    let t = texts(&["Vel", "=", "Vel", "(", "1", ")", ",", "Pos", "=", "p", ",", "Ref < Pos >", "=", "r . clone ()"]);
    assert_eq!(entity_fields(&t), pairs(&[("Pos", "p"), ("Ref<Pos>", "r.clone()"), ("Vel", "Vel(1)")]));
}

#[test]
fn equal_types_keep_their_order_and_an_empty_call_has_one_empty_field() {
    let t = texts(&["B", "=", "1", ",", "A", "=", "2", ",", "B", "=", "3"]);
    assert_eq!(entity_fields(&t), pairs(&[("A", "2"), ("B", "1"), ("B", "3")]));
    assert_eq!(entity_fields(&vec![]), pairs(&[("", "")]));
    let trailing = texts(&["A", "=", "1", ","]);
    assert_eq!(entity_fields(&trailing), pairs(&[("", ""), ("A", "1")]));
}
