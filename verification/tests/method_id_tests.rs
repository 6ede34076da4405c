use someip::method_ids::{allocate_next_valid_method_id, create_method_ids};

fn names(v: &[&str]) -> Vec<String> {
    v.iter().map(|s| s.to_string()).collect()
}

#[test]
fn methods_without_ids_get_free_ones() {
    let entries = vec![(2u32, "b".to_string())];
    let methods = names(&["a", "b", "c", "d"]);
    let r = create_method_ids(entries, &methods);
    assert_eq!(
        r,
        vec![
            (2, "b".to_string()),
            (1, "a".to_string()),
            (3, "c".to_string()),
            (4, "d".to_string()),
        ]
    );
}

#[test]
fn given_ids_are_skipped_and_kept_distinct() {
    let entries = vec![(1u32, "x".to_string()), (3, "y".to_string())];
    let methods = names(&["p", "x", "q", "y", "r"]);
    let r = create_method_ids(entries, &methods);
    let mut ids: Vec<u32> = r.iter().map(|e| e.0).collect();
    assert_eq!(ids, vec![1, 3, 2, 4, 5]);
    ids.sort();
    ids.dedup();
    assert_eq!(ids.len(), 5);
}

#[test]
fn allocation_searches_past_used_ids() {
    let mut entries = vec![(5u32, "a".to_string()), (6, "b".to_string())];
    let next = allocate_next_valid_method_id(&mut entries, 5, "c".to_string());
    assert_eq!(next, 8);
    assert_eq!(entries[2], (7, "c".to_string()));
}

#[test]
fn no_methods_leave_entries_unchanged() {
    let entries = vec![(9u32, "z".to_string())];
    let r = create_method_ids(entries.clone(), &vec![]);
    assert_eq!(r, entries);
}

#[test]
fn interface_example_gets_free_ids() {
    let entries = vec![
        (2u32, "echo_string".to_string()),
        (3, "no_reply".to_string()),
        (5, "echo_struct".to_string()),
    ];
    let methods = names(&["echo_int", "echo_string", "no_reply", "echo_u64", "echo_struct"]);
    let r = create_method_ids(entries, &methods);
    assert_eq!(r[3], (1, "echo_int".to_string()));
    assert_eq!(r[4], (4, "echo_u64".to_string()));
    assert_eq!(r.len(), 5);
}
