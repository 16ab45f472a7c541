//! The text substitution engine.
//!
//! Content that is not pure 7-bit text is classified binary and returned
//! unchanged.  Text content is rewritten one index entry at a time, in
//! index order: every occurrence of the key's delimited token `%KEY%` is
//! replaced by the key's value, scanning left to right, non-overlapping,
//! in a single pass — a replacement value is never rescanned, so no
//! recursive substitution happens.  One token syntax is supported: the
//! plain literal form `%KEY%`.

use vstd::prelude::*;
use crate::index::Index;

verus! {

/// The delimiter byte of a placeholder token, `%`.
pub open spec fn delim_byte() -> u8 {
    37
}

/// Whether every byte of `c` is 7-bit: the text/binary decision rule.
pub open spec fn is_ascii_seq(c: Seq<u8>) -> bool {
    forall|i: int| 0 <= i < c.len() ==> c[i] < 128
}

/// Whether the token `%k%` stands in `c` at position `i`.
pub open spec fn token_match_at(c: Seq<u8>, k: Seq<u8>, i: int) -> bool {
    &&& 0 <= i
    &&& i + k.len() + 2 <= c.len()
    &&& c[i] == delim_byte()
    &&& c.subrange(i + 1, i + 1 + k.len()) == k
    &&& c[i + 1 + k.len()] == delim_byte()
}

/// The position just past the token `%k%` that stands at `i`.
pub open spec fn token_end_at(k: Seq<u8>, i: int) -> int {
    i + k.len() + 2
}

/// Whether some token of key `k` stands anywhere in `c`.
pub open spec fn has_token(c: Seq<u8>, k: Seq<u8>) -> bool {
    exists|i: int| 0 <= i < c.len() && token_match_at(c, k, i)
}

/// `c` from position `i` on, with every token of `k` replaced by `v`:
/// leftmost first, non-overlapping, single pass.
pub open spec fn replace_from(c: Seq<u8>, k: Seq<u8>, v: Seq<u8>, i: int) -> Seq<u8>
    decreases c.len() - i,
{
    if 0 <= i < c.len() {
        if token_match_at(c, k, i) {
            v + replace_from(c, k, v, token_end_at(k, i))
        } else {
            seq![c[i]] + replace_from(c, k, v, i + 1)
        }
    } else {
        Seq::empty()
    }
}

/// `c` with every token of `k` replaced by `v`.
pub open spec fn replace_key_spec(c: Seq<u8>, k: Seq<u8>, v: Seq<u8>) -> Seq<u8> {
    replace_from(c, k, v, 0)
}

/// `c` rewritten with each (key, value) pair in turn, in index order.
pub open spec fn subst_pairs(c: Seq<u8>, ps: Seq<(Seq<u8>, Seq<u8>)>) -> Seq<u8>
    decreases ps.len(),
{
    if ps.len() == 0 {
        c
    } else {
        subst_pairs(replace_key_spec(c, ps[0].0, ps[0].1), ps.skip(1))
    }
}

/// What substitution produces for content `c`: binary content is returned
/// unchanged, text content is rewritten pair by pair.
pub open spec fn substitute_spec(c: Seq<u8>, ps: Seq<(Seq<u8>, Seq<u8>)>) -> Seq<u8> {
    if is_ascii_seq(c) {
        subst_pairs(c, ps)
    } else {
        c
    }
}

/// Whether `content` is classified text: every byte is 7-bit.
pub fn is_text(content: &Vec<u8>) -> (r: bool)
    ensures
        r == is_ascii_seq(content@),
{
    let mut i: usize = 0;
    while i < content.len()
        invariant
            i <= content@.len(),
            forall|j: int| 0 <= j < i ==> content@[j] < 128,
        decreases content@.len() - i,
    {
        if content[i] >= 128 {
            return false;
        }
        i += 1;
    }
    true
}

/// Looks for the token `%k%` at position `i` of `c`; returns the position
/// just past it when it stands there.
fn match_token_at(c: &Vec<u8>, k: &Vec<u8>, i: usize) -> (r: Option<usize>)
    requires
        i < c@.len(),
    ensures
        (match r {
            Some(e) => token_match_at(c@, k@, i as int) && e == token_end_at(k@, i as int),
            None => !token_match_at(c@, k@, i as int),
        }),
{
    if c[i] != 37 {
        return None;
    }
    if c.len() - i < 2 || c.len() - i - 2 < k.len() {
        return None;
    }
    let mut t: usize = 0;
    while t < k.len()
        invariant
            t <= k@.len(),
            i + 1 + k@.len() + 1 <= c@.len(),
            c@.len() <= usize::MAX,
            forall|j: int| 0 <= j < t ==> c@[i + 1 + j] == k@[j],
        decreases k@.len() - t,
    {
        if c[i + 1 + t] != k[t] {
            proof {
                if token_match_at(c@, k@, i as int) {
                    assert(c@.subrange(i + 1, i + 1 + k@.len())[t as int] == c@[i + 1 + t]);
                }
            }
            return None;
        }
        t += 1;
    }
    if c[i + 1 + k.len()] != 37 {
        return None;
    }
    proof {
        assert(c@.subrange(i + 1, i + 1 + k@.len()) =~= k@);
    }
    Some(i + k.len() + 2)
}

/// Replaces every occurrence of the token `%k%` in `c` by `v`, scanning
/// left to right, non-overlapping, without rescanning replacements.
pub fn replace_key(c: &Vec<u8>, k: &Vec<u8>, v: &Vec<u8>) -> (out: Vec<u8>)
    ensures
        out@ == replace_key_spec(c@, k@, v@),
{
    let mut out: Vec<u8> = Vec::new();
    let mut i: usize = 0;
    while i < c.len()
        invariant
            i <= c@.len(),
            out@ + replace_from(c@, k@, v@, i as int) == replace_key_spec(c@, k@, v@),
        decreases c@.len() - i,
    {
        let ghost prev = out@;
        match match_token_at(c, k, i) {
            Some(e) => {
                out.extend_from_slice(v.as_slice());
                proof {
                    assert(out@ + replace_from(c@, k@, v@, e as int) =~= prev + (v@
                        + replace_from(c@, k@, v@, e as int)));
                }
                i = e;
            },
            None => {
                out.push(c[i]);
                proof {
                    assert(out@ + replace_from(c@, k@, v@, i + 1) =~= prev + (seq![c@[i as int]]
                        + replace_from(c@, k@, v@, i + 1)));
                }
                i += 1;
            },
        }
    }
    proof {
        assert(out@ + replace_from(c@, k@, v@, c@.len() as int) =~= out@);
    }
    out
}

/// Runs `content` through the substitution engine: binary content is
/// returned unchanged, text content is rewritten with every index entry,
/// in index order.
pub fn substitute(content: Vec<u8>, index: &Index) -> (out: Vec<u8>)
    ensures
        out@ == substitute_spec(content@, index.pairs()),
{
    if !is_text(&content) {
        return content;
    }
    let ghost ps = index.pairs();
    let ghost c0 = content@;
    let mut cur = content;
    let mut j: usize = 0;
    assert(ps.skip(0) =~= ps);
    while j < index.len()
        invariant
            j <= ps.len(),
            ps == index.pairs(),
            subst_pairs(cur@, ps.skip(j as int)) == subst_pairs(c0, ps),
        decreases ps.len() - j,
    {
        let next = replace_key(&cur, index.key_at(j), index.value_at(j));
        proof {
            assert(ps.skip(j as int)[0] == ps[j as int]);
            assert(ps.skip(j as int).skip(1) =~= ps.skip(j + 1));
        }
        cur = next;
        j += 1;
    }
    proof {
        assert(ps.skip(ps.len() as int) =~= Seq::<(Seq<u8>, Seq<u8>)>::empty());
    }
    cur
}

/// A file classified binary is copied byte for byte, however much its
/// content resembles placeholder syntax.
pub proof fn lemma_binary_copied_verbatim(c: Seq<u8>, ps: Seq<(Seq<u8>, Seq<u8>)>)
    requires
        !is_ascii_seq(c),
    ensures
        substitute_spec(c, ps) == c,
{
}

/// Replacing from `i` on copies the tail unchanged when no token of `k`
/// stands at or after `i`.
proof fn lemma_replace_from_no_token(c: Seq<u8>, k: Seq<u8>, v: Seq<u8>, i: int)
    requires
        0 <= i <= c.len(),
        forall|j: int| i <= j < c.len() ==> !token_match_at(c, k, j),
    ensures
        replace_from(c, k, v, i) =~= c.subrange(i, c.len() as int),
    decreases c.len() - i,
{
    if i < c.len() {
        lemma_replace_from_no_token(c, k, v, i + 1);
        assert(seq![c[i]] + c.subrange(i + 1, c.len() as int) =~= c.subrange(i, c.len() as int));
    }
}

/// A text file in which no token of any index key stands is copied
/// unchanged.
pub proof fn lemma_no_tokens_copied_unchanged(c: Seq<u8>, ps: Seq<(Seq<u8>, Seq<u8>)>)
    requires
        forall|j: int| 0 <= j < ps.len() ==> !has_token(c, #[trigger] ps[j].0),
    ensures
        substitute_spec(c, ps) == c,
    decreases ps.len(),
{
    if ps.len() == 0 {
    } else {
        assert(!has_token(c, ps[0].0));
        assert(forall|i: int| 0 <= i < c.len() ==> !token_match_at(c, ps[0].0, i));
        lemma_replace_from_no_token(c, ps[0].0, ps[0].1, 0);
        assert(c.subrange(0, c.len() as int) =~= c);
        assert(replace_key_spec(c, ps[0].0, ps[0].1) == c);
        assert(forall|j: int| 0 <= j < ps.skip(1).len() ==> ps.skip(1)[j] == ps[j + 1]);
        lemma_no_tokens_copied_unchanged(c, ps.skip(1));
        if is_ascii_seq(c) {
            assert(subst_pairs(c, ps) == subst_pairs(replace_key_spec(c, ps[0].0, ps[0].1),
                ps.skip(1)));
        }
    }
}

} // verus!
