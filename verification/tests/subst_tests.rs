use template::index::Index;
use template::subst::{is_text, replace_key, substitute};

fn index_of(pairs: &[(&[u8], &[u8])]) -> Index {
    let mut idx = Index::new();
    for (k, v) in pairs {
        idx.insert(k.to_vec(), v.to_vec());
    }
    idx
}

#[test]
fn substitutes_name_and_version() {
    let idx = index_of(&[(b"NAME", b"demo"), (b"VERSION", b"1.0")]);
    let out = substitute(b"Project: %NAME% v%VERSION%".to_vec(), &idx);
    assert_eq!(out, b"Project: demo v1.0".to_vec());
}

#[test]
fn text_without_tokens_is_unchanged() {
    let idx = index_of(&[(b"NAME", b"demo")]);
    let content = b"NAME without delimiters, and 100% plain text".to_vec();
    assert_eq!(substitute(content.clone(), &idx), content);
}

#[test]
fn binary_content_is_copied_byte_for_byte() {
    let idx = index_of(&[(b"NAME", b"demo")]);
    let mut content = b"%NAME% resembles a token".to_vec();
    content.push(0xff);
    assert_eq!(substitute(content.clone(), &idx), content);
}

#[test]
fn classifies_seven_bit_content_as_text() {
    assert!(is_text(&Vec::new()));
    assert!(is_text(&vec![0x00, 0x7f, b'a']));
    assert!(!is_text(&vec![b'a', 0x80]));
}

#[test]
fn replaces_every_occurrence() {
    let out = replace_key(&b"%A% and %A%".to_vec(), &b"A".to_vec(), &b"x".to_vec());
    assert_eq!(out, b"x and x".to_vec());
}

#[test]
fn adjacent_tokens_are_both_replaced() {
    let idx = index_of(&[(b"A", b"1"), (b"B", b"2")]);
    assert_eq!(substitute(b"%A%%B%".to_vec(), &idx), b"12".to_vec());
}

#[test]
fn extra_delimiters_stay() {
    let out = replace_key(&b"%%A%%".to_vec(), &b"A".to_vec(), &b"x".to_vec());
    assert_eq!(out, b"%x%".to_vec());
}

#[test]
fn empty_value_erases_the_token() {
    let out = replace_key(&b"a%K%b".to_vec(), &b"K".to_vec(), &b"".to_vec());
    assert_eq!(out, b"ab".to_vec());
}

#[test]
fn a_key_never_rescans_its_own_replacement() {
    // the value holds the key's own token: a single pass leaves it alone
    let idx = index_of(&[(b"A", b"%A%x")]);
    assert_eq!(substitute(b"%A%".to_vec(), &idx), b"%A%x".to_vec());
}

#[test]
fn later_keys_scan_earlier_replacements_in_index_order() {
    // keys are applied in index order, each in one pass over the result
    let idx = index_of(&[(b"A", b"%B%"), (b"B", b"2")]);
    assert_eq!(substitute(b"%A%".to_vec(), &idx), b"2".to_vec());
    let rev = index_of(&[(b"B", b"2"), (b"A", b"%B%")]);
    assert_eq!(substitute(b"%A%".to_vec(), &rev), b"%B%".to_vec());
}

#[test]
fn unresolved_token_is_left_alone() {
    let idx = index_of(&[(b"NAME", b"demo")]);
    assert_eq!(substitute(b"%OTHER%".to_vec(), &idx), b"%OTHER%".to_vec());
}
