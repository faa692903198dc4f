use highway_core::{Validator, ValidatorIndex, Validators};

fn names(v: &Validators<String>) -> Vec<String> {
    let mut out = Vec::new();
    for i in 0..v.len() {
        out.push(v.id_of(ValidatorIndex(i)).clone());
    }
    out
}

#[test]
fn from_iter() {
    let weights = vec![
        ("Bob".to_string(), 5),
        ("Carol".to_string(), 3),
        ("Alice".to_string(), 4),
    ];
    let validators = Validators::from_iter(weights);
    assert_eq!(Some(ValidatorIndex(0)), validators.index_of(&"Alice".to_string()));
    assert_eq!(Some(ValidatorIndex(1)), validators.index_of(&"Bob".to_string()));
    assert_eq!(Some(ValidatorIndex(2)), validators.index_of(&"Carol".to_string()));
}

#[test]
fn ids_by_index_follow_sorted_order() {
    let validators = Validators::from_iter(vec![
        ("Bob".to_string(), 5),
        ("Carol".to_string(), 3),
        ("Alice".to_string(), 4),
    ]);
    assert_eq!(validators.len(), 3);
    assert_eq!(validators.id_of(ValidatorIndex(0)), "Alice");
    assert_eq!(validators.id_of(ValidatorIndex(1)), "Bob");
    assert_eq!(validators.id_of(ValidatorIndex(2)), "Carol");
    assert_eq!(validators.weight_of(ValidatorIndex(0)), 4);
    assert_eq!(validators.weight_of(ValidatorIndex(1)), 5);
    assert_eq!(validators.weight_of(ValidatorIndex(2)), 3);
}

#[test]
fn every_input_order_gives_the_same_registry() {
    let base = [("Bob", 5u64), ("Carol", 3), ("Alice", 4)];
    let orders = [[0, 1, 2], [0, 2, 1], [1, 0, 2], [1, 2, 0], [2, 0, 1], [2, 1, 0]];
    for order in orders.iter() {
        let pairs: Vec<(String, u64)> =
            order.iter().map(|&k| (base[k].0.to_string(), base[k].1)).collect();
        let validators = Validators::from_iter(pairs);
        assert_eq!(names(&validators), vec!["Alice", "Bob", "Carol"]);
        assert_eq!(validators.index_of(&"Alice".to_string()), Some(ValidatorIndex(0)));
        assert_eq!(validators.index_of(&"Bob".to_string()), Some(ValidatorIndex(1)));
        assert_eq!(validators.index_of(&"Carol".to_string()), Some(ValidatorIndex(2)));
        assert_eq!(validators.weight_of(ValidatorIndex(0)), 4);
    }
}

#[test]
fn weights_do_not_move_indices() {
    let a = Validators::from_iter(vec![(7u64, 1), (3, 100), (5, 50)]);
    let b = Validators::from_iter(vec![(5u64, 0), (7, 9), (3, 2)]);
    for id in [3u64, 5, 7].iter() {
        assert_eq!(a.index_of(id), b.index_of(id));
    }
    assert_eq!(a.index_of(&3), Some(ValidatorIndex(0)));
    assert_eq!(a.index_of(&5), Some(ValidatorIndex(1)));
    assert_eq!(a.index_of(&7), Some(ValidatorIndex(2)));
}

#[test]
fn indices_are_dense_and_distinct() {
    let ids = [42u64, 7, 19, 3, 88, 61, 25];
    let validators = Validators::from_iter(ids.iter().map(|&i| (i, i * 2)).collect());
    assert_eq!(validators.len(), ids.len());
    let mut seen = vec![false; ids.len()];
    for id in ids.iter() {
        let idx = validators.index_of(id).unwrap();
        assert!(idx.0 < ids.len());
        assert!(!seen[idx.0]);
        seen[idx.0] = true;
    }
    assert!(seen.iter().all(|&s| s));
}

#[test]
fn id_of_inverts_index_of() {
    let ids = ["dave", "erin", "ann", "zed", "mo"];
    let validators = Validators::from_iter(ids.iter().map(|s| (s.to_string(), 1)).collect());
    for id in ids.iter() {
        let id = id.to_string();
        let idx = validators.index_of(&id).unwrap();
        assert_eq!(validators.id_of(idx), &id);
    }
}

#[test]
fn unknown_id_is_not_found() {
    let validators = Validators::from_iter(vec![("Bob".to_string(), 5), ("Alice".to_string(), 4)]);
    assert_eq!(validators.index_of(&"Mallory".to_string()), None);
    assert_eq!(validators.index_of(&"".to_string()), None);
    assert_eq!(validators.index_of(&"Bobby".to_string()), None);
}

#[test]
fn empty_input_gives_empty_registry() {
    let validators: Validators<String> = Validators::from_iter(Vec::new());
    assert_eq!(validators.len(), 0);
    assert_eq!(validators.index_of(&"Alice".to_string()), None);
    let numbers: Validators<u64> = Validators::from_iter(Vec::new());
    assert_eq!(numbers.index_of(&0), None);
}

#[test]
fn duplicate_id_keeps_largest_weight() {
    let a = Validators::from_iter(vec![(9u64, 3), (4, 1), (9, 7), (9, 5)]);
    let b = Validators::from_iter(vec![(9u64, 5), (9, 7), (4, 1), (9, 3)]);
    assert_eq!(a.len(), 2);
    assert_eq!(b.len(), 2);
    assert_eq!(a.index_of(&4), Some(ValidatorIndex(0)));
    assert_eq!(a.index_of(&9), Some(ValidatorIndex(1)));
    assert_eq!(a.weight_of(ValidatorIndex(1)), 7);
    assert_eq!(b.weight_of(ValidatorIndex(1)), 7);
    assert_eq!(a.weight_of(ValidatorIndex(0)), 1);
}

#[test]
fn largest_weight_is_kept() {
    let validators = Validators::from_iter(vec![(1u64, u64::MAX), (0, 0)]);
    assert_eq!(validators.weight_of(ValidatorIndex(1)), u64::MAX);
    assert_eq!(validators.weight_of(ValidatorIndex(0)), 0);
}

#[test]
fn validator_index_from_usize() {
    assert_eq!(ValidatorIndex::from(3usize), ValidatorIndex(3));
    assert_eq!(ValidatorIndex::from(0usize), ValidatorIndex(0));
}

#[test]
fn validator_from_pair() {
    let v = Validator::from(("Carol".to_string(), 3u64));
    assert_eq!(v.id(), "Carol");
    assert_eq!(v.weight(), 3);
}
