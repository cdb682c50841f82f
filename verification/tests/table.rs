use tempmon::table::Table;
use tempmon::text::{placement, Placement};

fn names(table: &Table<i32>) -> Vec<String> {
    let mut out = Vec::new();
    for i in 0..table.len() {
        out.push(table.name_at(i).to_string());
    }
    out
}

#[test]
fn table_starts_empty() {
    let table: Table<i32> = Table::new();
    assert_eq!(table.len(), 0);
    assert_eq!(table.get("a"), None);
    assert!(!table.contains("a"));
}

#[test]
fn table_keeps_names_in_ascending_order() {
    let mut table: Table<i32> = Table::new();
    for (name, value) in [("delta", 4), ("alpha", 1), ("charlie", 3), ("bravo", 2), ("echo", 5)] {
        table.insert(name.to_string(), value);
    }
    assert_eq!(names(&table), vec!["alpha", "bravo", "charlie", "delta", "echo"]);
    for i in 0..table.len() {
        assert_eq!(*table.value_at(i), i as i32 + 1);
    }
}

#[test]
fn table_insert_replaces_a_known_name() {
    let mut table: Table<i32> = Table::new();
    table.insert("a".to_string(), 1);
    table.insert("b".to_string(), 2);
    table.insert("a".to_string(), 3);
    assert_eq!(table.len(), 2);
    assert_eq!(table.get("a"), Some(&3));
    assert_eq!(table.get("b"), Some(&2));
}

#[test]
fn table_replace_leaves_unknown_names_out() {
    let mut table: Table<i32> = Table::new();
    table.insert("a".to_string(), 1);
    assert!(table.replace("a", 5));
    assert!(!table.replace("b", 6));
    assert_eq!(table.len(), 1);
    assert_eq!(table.get("a"), Some(&5));
    assert_eq!(table.get("b"), None);
}

#[test]
fn table_duplicate_holds_the_same_rows() {
    let mut table: Table<i32> = Table::new();
    table.insert("b".to_string(), 2);
    table.insert("a".to_string(), 1);
    let mut copy = table.duplicate();
    assert_eq!(names(&copy), vec!["a", "b"]);
    assert_eq!(copy.get("a"), Some(&1));
    copy.insert("c".to_string(), 3);
    assert_eq!(table.len(), 2);
    assert_eq!(copy.len(), 3);
}

#[test]
fn table_finds_every_name_among_many() {
    let mut table: Table<i32> = Table::new();
    for i in 0..200 {
        let n = (i * 37) % 200;
        table.insert(format!("probe-{:03}", n), n);
    }
    assert_eq!(table.len(), 200);
    for n in 0..200 {
        assert_eq!(table.get(&format!("probe-{:03}", n)), Some(&n));
    }
    let listed = names(&table);
    let mut sorted = listed.clone();
    sorted.sort();
    assert_eq!(listed, sorted);
}

#[test]
fn placement_orders_by_code_point() {
    assert!(matches!(placement("a", "b"), Placement::Before));
    assert!(matches!(placement("b", "a"), Placement::After));
    assert!(matches!(placement("abc", "abc"), Placement::Same));
    assert!(matches!(placement("", ""), Placement::Same));
    assert!(matches!(placement("", "a"), Placement::Before));
    assert!(matches!(placement("ab", "abc"), Placement::Before));
    assert!(matches!(placement("abc", "ab"), Placement::After));
    assert!(matches!(placement("Z", "a"), Placement::Before));
    assert!(matches!(placement("z", "é"), Placement::Before));
    assert!(matches!(placement("\u{ffff}", "\u{10000}"), Placement::Before));
}

#[test]
fn placement_agrees_with_the_standard_order_of_strings() {
    let words = ["", "a", "A", "aa", "ab", "b", "28-aaa", "28-bbb", "é", "z", "\u{10000}", "\u{ffff}"];
    for a in words {
        for b in words {
            let expected = a.cmp(b) as i32;
            let got = match placement(a, b) {
                Placement::Before => -1,
                Placement::Same => 0,
                Placement::After => 1,
            };
            assert_eq!(got, expected, "{:?} against {:?}", a, b);
        }
    }
}
