use template::error::Error;
use template::manifest::{is_manifest_name, manifest_name, parse_manifest, read_manifest_keys};

#[test]
fn parses_keys_in_file_order() {
    let content = b"NAME\nVERSION\n".to_vec();
    let keys = parse_manifest(&content);
    assert_eq!(keys, vec![b"NAME".to_vec(), b"VERSION".to_vec()]);
}

#[test]
fn trims_lines_and_skips_blank_ones() {
    let content = b"  NAME \t\n\n   \nVERSION".to_vec();
    let keys = parse_manifest(&content);
    assert_eq!(keys, vec![b"NAME".to_vec(), b"VERSION".to_vec()]);
}

#[test]
fn handles_carriage_returns() {
    let content = b"NAME\r\nVERSION\r\n".to_vec();
    let keys = parse_manifest(&content);
    assert_eq!(keys, vec![b"NAME".to_vec(), b"VERSION".to_vec()]);
}

#[test]
fn empty_manifest_yields_no_keys() {
    assert!(parse_manifest(&Vec::new()).is_empty());
    assert!(parse_manifest(&b" \n\t\n".to_vec()).is_empty());
}

#[test]
fn duplicate_keys_are_kept_in_order() {
    let content = b"A\nB\nA\n".to_vec();
    let keys = parse_manifest(&content);
    assert_eq!(keys, vec![b"A".to_vec(), b"B".to_vec(), b"A".to_vec()]);
}

#[test]
fn recognizes_the_manifest_file_name() {
    assert_eq!(manifest_name(), b"template.txt".to_vec());
    assert!(is_manifest_name(&b"template.txt".to_vec()));
    assert!(!is_manifest_name(&b"template.txt.bak".to_vec()));
    assert!(!is_manifest_name(&b"Template.txt".to_vec()));
}

#[test]
fn missing_manifest_is_fatal() {
    assert_eq!(read_manifest_keys(None), Err(Error::ManifestUnreadable));
}

#[test]
fn readable_manifest_parses() {
    let r = read_manifest_keys(Some(b"NAME\n".to_vec()));
    assert_eq!(r, Ok(vec![b"NAME".to_vec()]));
}
