//! Byte-level helpers shared by manifest parsing and token substitution:
//! the whitespace class of the token grammar, whitespace runs, trimming,
//! and byte-sequence equality.

use vstd::prelude::*;

verus! {

/// The whitespace bytes recognized by line trimming and by the token
/// grammar: space, tab, line feed, vertical tab, form feed, carriage return.
pub open spec fn is_ws_byte(b: u8) -> bool {
    b == 32 || b == 9 || b == 10 || b == 11 || b == 12 || b == 13
}

/// Whether `b` is a whitespace byte.
pub fn ws_byte(b: u8) -> (r: bool)
    ensures
        r == is_ws_byte(b),
{
    b == 32 || b == 9 || b == 10 || b == 11 || b == 12 || b == 13
}

/// The length of the run of whitespace bytes of `c` that starts at `i`.
pub open spec fn ws_run_len(c: Seq<u8>, i: int) -> nat
    decreases c.len() - i,
{
    if 0 <= i < c.len() && is_ws_byte(c[i]) {
        (1 + ws_run_len(c, i + 1)) as nat
    } else {
        0
    }
}

/// The run of whitespace starting at `i` stays in bounds, consists of
/// whitespace bytes only, and is maximal.
pub proof fn lemma_ws_run(c: Seq<u8>, i: int)
    requires
        0 <= i <= c.len(),
    ensures
        i + ws_run_len(c, i) <= c.len(),
        i + ws_run_len(c, i) == c.len() || !is_ws_byte(c[i + ws_run_len(c, i)]),
        forall|j: int| i <= j < i + ws_run_len(c, i) ==> is_ws_byte(c[j]),
    decreases c.len() - i,
{
    if i < c.len() && is_ws_byte(c[i]) {
        lemma_ws_run(c, i + 1);
    }
}

/// The length of the run of whitespace bytes of `c` that ends just
/// before `i`, scanning backwards.
pub open spec fn ws_run_rev_len(c: Seq<u8>, i: int) -> nat
    decreases i,
{
    if 0 < i <= c.len() && is_ws_byte(c[i - 1]) {
        (1 + ws_run_rev_len(c, i - 1)) as nat
    } else {
        0
    }
}

/// The backwards run ending before `i` stays in bounds, consists of
/// whitespace bytes only, and is maximal.
pub proof fn lemma_ws_run_rev(c: Seq<u8>, i: int)
    requires
        0 <= i <= c.len(),
    ensures
        i - ws_run_rev_len(c, i) >= 0,
        i - ws_run_rev_len(c, i) == 0 || !is_ws_byte(c[i - ws_run_rev_len(c, i) - 1]),
        forall|j: int| i - ws_run_rev_len(c, i) <= j < i ==> is_ws_byte(c[j]),
    decreases i,
{
    if 0 < i && is_ws_byte(c[i - 1]) {
        lemma_ws_run_rev(c, i - 1);
    }
}

/// `s` with leading and trailing whitespace removed.
pub open spec fn trim_spec(s: Seq<u8>) -> Seq<u8> {
    let a = ws_run_len(s, 0) as int;
    if a == s.len() {
        Seq::empty()
    } else {
        s.subrange(a, s.len() - ws_run_rev_len(s, s.len() as int))
    }
}

/// Removes leading and trailing whitespace bytes.
pub fn trim_bytes(s: &Vec<u8>) -> (r: Vec<u8>)
    ensures
        r@ == trim_spec(s@),
{
    let ghost len = s@.len() as int;
    let mut j: usize = 0;
    while j < s.len() && ws_byte(s[j])
        invariant
            j <= s@.len(),
            ws_run_len(s@, 0) == j + ws_run_len(s@, j as int),
        decreases s@.len() - j,
    {
        j += 1;
    }
    assert(ws_run_len(s@, j as int) == 0);
    assert(ws_run_len(s@, 0) == j);
    if j == s.len() {
        assert(trim_spec(s@) =~= Seq::<u8>::empty());
        return Vec::new();
    }
    let mut k: usize = s.len();
    while k > 0 && ws_byte(s[k - 1])
        invariant
            j < s@.len(),
            k <= s@.len(),
            ws_run_rev_len(s@, len) == (s@.len() - k) + ws_run_rev_len(s@, k as int),
        decreases k,
    {
        k -= 1;
    }
    assert(ws_run_rev_len(s@, k as int) == 0);
    assert(ws_run_rev_len(s@, len) == s@.len() - k);
    proof {
        lemma_ws_run_rev(s@, len);
        if k <= j {
            assert(is_ws_byte(s@[j as int]));
        }
    }
    let mut r: Vec<u8> = Vec::new();
    let mut m: usize = j;
    while m < k
        invariant
            j <= m <= k <= s@.len(),
            r@ =~= s@.subrange(j as int, m as int),
        decreases k - m,
    {
        r.push(s[m]);
        assert(r@ =~= s@.subrange(j as int, m + 1 as int));
        m += 1;
    }
    assert(r@ =~= trim_spec(s@));
    r
}

/// Whether two byte vectors hold the same bytes.
pub fn bytes_eq(a: &Vec<u8>, b: &Vec<u8>) -> (r: bool)
    ensures
        r == (a@ == b@),
{
    if a.len() != b.len() {
        assert(a@.len() != b@.len());
        return false;
    }
    let mut i: usize = 0;
    while i < a.len()
        invariant
            i <= a@.len(),
            a@.len() == b@.len(),
            forall|j: int| 0 <= j < i ==> a@[j] == b@[j],
        decreases a@.len() - i,
    {
        if a[i] != b[i] {
            return false;
        }
        i += 1;
    }
    assert(a@ =~= b@);
    true
}

} // verus!
