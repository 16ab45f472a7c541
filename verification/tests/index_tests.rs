use template::index::{build_index, Index};

#[test]
fn one_value_per_unique_key() {
    // three manifest lines, two unique keys: the index resolves exactly two
    let keys = vec![b"A".to_vec(), b"B".to_vec(), b"A".to_vec()];
    let values = vec![b"1".to_vec(), b"2".to_vec(), b"3".to_vec()];
    let idx = build_index(&keys, &values);
    assert_eq!(idx.len(), 2);
}

#[test]
fn later_prompt_overwrites_earlier_value() {
    let keys = vec![b"A".to_vec(), b"B".to_vec(), b"A".to_vec()];
    let values = vec![b"1".to_vec(), b"2".to_vec(), b"3".to_vec()];
    let idx = build_index(&keys, &values);
    assert_eq!(idx.key_at(0), &b"A".to_vec());
    assert_eq!(idx.value_at(0), &b"3".to_vec());
    assert_eq!(idx.key_at(1), &b"B".to_vec());
    assert_eq!(idx.value_at(1), &b"2".to_vec());
}

#[test]
fn insert_overwrites_in_place() {
    let mut idx = Index::new();
    assert_eq!(idx.len(), 0);
    idx.insert(b"K".to_vec(), b"v1".to_vec());
    idx.insert(b"L".to_vec(), b"w".to_vec());
    idx.insert(b"K".to_vec(), b"v2".to_vec());
    assert_eq!(idx.len(), 2);
    assert_eq!(idx.key_at(0), &b"K".to_vec());
    assert_eq!(idx.value_at(0), &b"v2".to_vec());
    assert_eq!(idx.key_at(1), &b"L".to_vec());
    assert_eq!(idx.value_at(1), &b"w".to_vec());
}
