use optdiff::table::{find_name, lookup};

#[test]
fn names_are_found_at_their_first_entry() {
    let table = vec![
        ("f".to_string(), vec!["1".to_string()]),
        ("g".to_string(), vec![]),
        ("f".to_string(), vec!["2".to_string()]),
    ];
    assert_eq!(find_name(&table, &"f".to_string()), Some(0));
    assert_eq!(find_name(&table, &"g".to_string()), Some(1));
    assert_eq!(find_name(&table, &"h".to_string()), None);
    assert_eq!(lookup(&table, "f"), Some(&vec!["1".to_string()]));
    assert_eq!(lookup(&table, "g"), Some(&vec![]));
    assert_eq!(lookup(&table, ""), None);
    let empty: Vec<(String, Vec<String>)> = Vec::new();
    assert_eq!(find_name(&empty, &"f".to_string()), None);
}
