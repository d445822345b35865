use yql_core::array::Scalar;
use yql_core::keys::KeyTable;

fn key(parts: &[&str]) -> Vec<Scalar> {
    parts.iter().map(|p| Scalar::String(p.to_string())).collect()
}

#[test]
fn keys_are_numbered_in_the_order_of_their_arrival() {
    let mut table = KeyTable::new();
    assert_eq!(table.len(), 0);
    assert_eq!(table.find(&key(&["a"])), None);
    assert_eq!(table.insert(&key(&["a"])), 0);
    assert_eq!(table.insert(&key(&["b", "c"])), 1);
    assert_eq!(table.insert(&vec![Scalar::Null, Scalar::Int64(1)]), 2);
    assert_eq!(table.len(), 3);
    assert_eq!(table.find(&key(&["a"])), Some(0));
    assert_eq!(table.find(&key(&["b", "c"])), Some(1));
    assert_eq!(table.find(&vec![Scalar::Null, Scalar::Int64(1)]), Some(2));
    assert_eq!(table.find(&key(&["b"])), None);
    assert_eq!(table.find(&key(&["bc"])), None);
    assert_eq!(table.find(&vec![Scalar::Null, Scalar::Int32(1)]), None);
    assert_eq!(table.key(1), &key(&["b", "c"]));
}

#[test]
fn many_keys_are_found_again() {
    let mut table = KeyTable::new();
    for i in 0..500i64 {
        assert_eq!(table.insert(&vec![Scalar::Int64(i), Scalar::Boolean(i % 2 == 0)]), i as usize);
    }
    for i in 0..500i64 {
        assert_eq!(
            table.find(&vec![Scalar::Int64(i), Scalar::Boolean(i % 2 == 0)]),
            Some(i as usize)
        );
        assert_eq!(
            table.find(&vec![Scalar::Int64(i), Scalar::Boolean(i % 2 != 0)]),
            None
        );
    }
}
