use felix_backend::id_computation::generate_next_id;

#[test]
fn test_generate_next_id() {
    let used_ids: Vec<usize> = vec![1, 3, 2, 4, 6, 0];
    let expected_next_id = 5;
    assert_eq!(generate_next_id(used_ids), expected_next_id);

    let used_ids: Vec<usize> = vec![1, 3, 2, 4, 6];
    let expected_next_id = 0;
    assert_eq!(generate_next_id(used_ids), expected_next_id);

    let used_ids: Vec<usize> = vec![1, 3, 0, 4, 6];
    let expected_next_id = 2;
    assert_eq!(generate_next_id(used_ids), expected_next_id);
}

#[test]
fn generate_next_id_without_used_ids() {
    assert_eq!(generate_next_id(vec![]), 0);
}

#[test]
fn generate_next_id_when_all_ids_are_taken() {
    assert_eq!(generate_next_id(vec![2, 0, 1]), 3);
}

#[test]
fn generate_next_id_ignores_repeated_ids() {
    assert_eq!(generate_next_id(vec![0, 0, 1]), 2);
    assert_eq!(generate_next_id(vec![0, 0, 2]), 1);
    assert_eq!(generate_next_id(vec![0, 0]), 1);
}
