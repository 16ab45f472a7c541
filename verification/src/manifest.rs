//! The manifest: the file at the template root that lists the placeholder
//! keys, one per line.  Blank lines and surrounding whitespace are ignored.
//! The manifest file itself is never copied into the output.

use vstd::prelude::*;
use crate::bytes::{is_ws_byte, trim_spec, trim_bytes, bytes_eq};
use crate::error::Error;

verus! {

/// The name of the manifest file, `template.txt`, as bytes.
pub open spec fn manifest_file_name() -> Seq<u8> {
    seq![116u8, 101u8, 109u8, 112u8, 108u8, 97u8, 116u8, 101u8, 46u8, 116u8, 120u8, 116u8]
}

/// The name of the manifest file, `template.txt`, as bytes.
pub fn manifest_name() -> (n: Vec<u8>)
    ensures
        n@ == manifest_file_name(),
{
    let n: Vec<u8> = vec![116u8, 101u8, 109u8, 112u8, 108u8, 97u8, 116u8, 101u8, 46u8, 116u8,
        120u8, 116u8];
    assert(n@ =~~= manifest_file_name());
    n
}

/// Whether `name` is the manifest file's name.
pub fn is_manifest_name(name: &Vec<u8>) -> (r: bool)
    ensures
        r == (name@ == manifest_file_name()),
{
    let m = manifest_name();
    bytes_eq(name, &m)
}

/// The keys named by manifest content `c` from position `i` on, with `cur`
/// the bytes of the current line read so far: lines are separated by line
/// feeds, each line is trimmed, and empty lines are dropped.
pub open spec fn manifest_keys_from(c: Seq<u8>, i: int, cur: Seq<u8>) -> Seq<Seq<u8>>
    decreases c.len() - i,
{
    if 0 <= i < c.len() {
        if c[i] == 10 {
            let t = trim_spec(cur);
            let rest = manifest_keys_from(c, i + 1, Seq::empty());
            if t.len() == 0 {
                rest
            } else {
                seq![t] + rest
            }
        } else {
            manifest_keys_from(c, i + 1, cur.push(c[i]))
        }
    } else {
        let t = trim_spec(cur);
        if t.len() == 0 {
            Seq::empty()
        } else {
            seq![t]
        }
    }
}

/// The placeholder keys named by manifest content `c`: its non-empty
/// trimmed lines, in file order.
pub open spec fn manifest_keys(c: Seq<u8>) -> Seq<Seq<u8>> {
    manifest_keys_from(c, 0, Seq::empty())
}

/// Splits manifest content into its non-empty trimmed lines: one
/// placeholder key per line, in file order.
pub fn parse_manifest(content: &Vec<u8>) -> (keys: Vec<Vec<u8>>)
    ensures
        keys.deep_view() == manifest_keys(content@),
{
    let mut keys: Vec<Vec<u8>> = Vec::new();
    let mut cur: Vec<u8> = Vec::new();
    let mut p: usize = 0;
    while p < content.len()
        invariant
            p <= content@.len(),
            keys.deep_view() + manifest_keys_from(content@, p as int, cur@)
                =~~= manifest_keys(content@),
        decreases content@.len() - p,
    {
        let ghost prev_keys = keys.deep_view();
        let b = content[p];
        if b == 10 {
            let t = trim_bytes(&cur);
            if t.len() > 0 {
                keys.push(t);
                assert(keys.deep_view() =~~= prev_keys.push(t@));
                assert(keys.deep_view() + manifest_keys_from(content@, p + 1, Seq::empty())
                    =~~= prev_keys + (seq![t@] + manifest_keys_from(content@, p + 1, Seq::empty())));
            }
            cur = Vec::new();
        } else {
            cur.push(b);
        }
        p += 1;
    }
    let t = trim_bytes(&cur);
    let ghost prev_keys = keys.deep_view();
    if t.len() > 0 {
        keys.push(t);
        assert(keys.deep_view() =~~= prev_keys.push(t@));
        assert(prev_keys.push(t@) =~~= prev_keys + seq![t@]);
    }
    assert(keys.deep_view() =~~= manifest_keys(content@));
    keys
}

/// The pre-flight step over the manifest read's outcome: without readable
/// manifest content the run cannot proceed — which placeholders to collect
/// is unknown — and fails with `ManifestUnreadable`; otherwise the content
/// parses into the manifest's keys.
pub fn read_manifest_keys(content: Option<Vec<u8>>) -> (r: Result<Vec<Vec<u8>>, Error>)
    ensures
        (match content {
            Some(c) => r matches Ok(keys) && keys.deep_view() == manifest_keys(c@),
            None => r == Err::<Vec<Vec<u8>>, Error>(Error::ManifestUnreadable),
        }),
{
    match content {
        Some(c) => Ok(parse_manifest(&c)),
        None => Err(Error::ManifestUnreadable),
    }
}

} // verus!
