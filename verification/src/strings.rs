//! Verified character-level string primitives: equality, prefix, suffix,
//! substring search and lexicographic comparison, each proved against a
//! statement over the `Seq<char>` view.

use vstd::prelude::*;

verus! {

/// `hay` holds `needle` as a contiguous run, at some offset.
pub open spec fn contains_seq(hay: Seq<char>, needle: Seq<char>) -> bool {
    exists|k: int|
        0 <= k <= hay.len() - needle.len() && #[trigger] hay.subrange(k, k + needle.len())
            == needle
}

/// Strict lexicographic order on the characters from position `i` on; a
/// proper prefix sorts first.
pub open spec fn lex_lt_from(a: Seq<char>, b: Seq<char>, i: int) -> bool
    recommends
        0 <= i,
    decreases a.len() - i,
{
    if i >= b.len() {
        false
    } else if i >= a.len() {
        true
    } else if a[i] != b[i] {
        (a[i] as int) < (b[i] as int)
    } else {
        lex_lt_from(a, b, i + 1)
    }
}

/// Strict lexicographic order on character sequences, as Rust orders `str`
/// values (code-point order, which equals byte order under UTF-8).
pub open spec fn lex_lt(a: Seq<char>, b: Seq<char>) -> bool {
    lex_lt_from(a, b, 0)
}

/// The characters of `a` starting at `a_from` and of `b` starting at `b_from`
/// agree for `n` positions.
fn eq_at(a: &str, b: &str, a_from: usize, b_from: usize, n: usize) -> (r: bool)
    requires
        a_from + n <= a@.len() <= usize::MAX,
        b_from + n <= b@.len() <= usize::MAX,
    ensures
        r == (a@.subrange(a_from as int, a_from + n) == b@.subrange(b_from as int, b_from + n)),
{
    let mut k: usize = 0;
    while k < n
        invariant
            0 <= k <= n,
            a_from + n <= a@.len() <= usize::MAX,
            b_from + n <= b@.len() <= usize::MAX,
            forall|m: int| 0 <= m < k ==> #[trigger] a@[a_from + m] == b@[b_from + m],
        decreases n - k,
    {
        if a.get_char(a_from + k) != b.get_char(b_from + k) {
            proof {
                let sa = a@.subrange(a_from as int, a_from + n);
                let sb = b@.subrange(b_from as int, b_from + n);
                assert(sa[k as int] != sb[k as int]);
            }
            return false;
        }
        k = k + 1;
    }
    proof {
        let sa = a@.subrange(a_from as int, a_from + n);
        let sb = b@.subrange(b_from as int, b_from + n);
        assert forall|m: int| 0 <= m < n implies sa[m] == sb[m] by {
            assert(a@[a_from + m] == b@[b_from + m]);
        }
        assert(sa =~= sb);
    }
    true
}

/// Character-for-character equality of two string slices.
pub fn str_eq(a: &str, b: &str) -> (r: bool)
    ensures
        r == (a@ == b@),
{
    let alen = a.unicode_len();
    let blen = b.unicode_len();
    if alen != blen {
        return false;
    }
    let r = eq_at(a, b, 0, 0, alen);
    proof {
        assert(a@.subrange(0, alen as int) =~= a@);
        assert(b@.subrange(0, blen as int) =~= b@);
    }
    r
}

/// Whether `p` is a prefix of `s`.
pub fn str_starts_with(s: &str, p: &str) -> (r: bool)
    ensures
        r == p@.is_prefix_of(s@),
{
    let slen = s.unicode_len();
    let plen = p.unicode_len();
    if plen > slen {
        return false;
    }
    let r = eq_at(s, p, 0, 0, plen);
    proof {
        assert(p@.subrange(0, plen as int) =~= p@);
    }
    r
}

/// Whether `p` is a suffix of `s`.
pub fn str_ends_with(s: &str, p: &str) -> (r: bool)
    ensures
        r == p@.is_suffix_of(s@),
{
    let slen = s.unicode_len();
    let plen = p.unicode_len();
    if plen > slen {
        return false;
    }
    let r = eq_at(s, p, slen - plen, 0, plen);
    proof {
        assert(p@.subrange(0, plen as int) =~= p@);
    }
    r
}

/// Whether `s` holds `p` as a contiguous run of characters.
pub fn str_contains(s: &str, p: &str) -> (r: bool)
    ensures
        r == contains_seq(s@, p@),
{
    let slen = s.unicode_len();
    let plen = p.unicode_len();
    if plen > slen {
        return false;
    }
    let last = slen - plen;
    let mut k: usize = 0;
    loop
        invariant
            0 <= k <= last,
            last == slen - plen,
            plen <= slen,
            slen == s@.len(),
            plen == p@.len(),
            forall|j: int| 0 <= j < k ==> #[trigger] s@.subrange(j, j + p@.len()) != p@,
        ensures
            forall|j: int| 0 <= j <= last ==> #[trigger] s@.subrange(j, j + p@.len()) != p@,
        decreases last - k,
    {
        if eq_at(s, p, k, 0, plen) {
            proof {
                assert(p@.subrange(0, plen as int) =~= p@);
            }
            return true;
        }
        proof {
            assert(p@.subrange(0, plen as int) =~= p@);
            assert(s@.subrange(k as int, k + p@.len()) != p@);
        }
        if k == last {
            break;
        }
        k = k + 1;
    }
    false
}

/// Whether `a` sorts strictly before `b` in lexicographic order.
pub fn str_lt(a: &str, b: &str) -> (r: bool)
    ensures
        r == lex_lt(a@, b@),
{
    let alen = a.unicode_len();
    let blen = b.unicode_len();
    let mut i: usize = 0;
    while i < alen && i < blen
        invariant
            0 <= i <= alen,
            i <= blen,
            alen == a@.len(),
            blen == b@.len(),
            lex_lt(a@, b@) == lex_lt_from(a@, b@, i as int),
        decreases alen - i,
    {
        let ca = a.get_char(i);
        let cb = b.get_char(i);
        if ca != cb {
            return (ca as u32) < (cb as u32);
        }
        i = i + 1;
    }
    i < blen
}

/// Two sequences that neither precede one another are equal: the order is
/// connected.
pub proof fn lemma_lex_lt_connected(a: Seq<char>, b: Seq<char>)
    requires
        !lex_lt(a, b),
        !lex_lt(b, a),
    ensures
        a == b,
{
    lemma_lex_lt_from_connected(a, b, 0);
    assert(a =~= b);
}

proof fn lemma_lex_lt_from_connected(a: Seq<char>, b: Seq<char>, i: int)
    requires
        0 <= i <= a.len(),
        i <= b.len(),
        !lex_lt_from(a, b, i),
        !lex_lt_from(b, a, i),
    ensures
        a.len() == b.len(),
        forall|j: int| i <= j < a.len() ==> a[j] == b[j],
    decreases a.len() - i,
{
    if i < a.len() && i < b.len() {
        lemma_lex_lt_from_connected(a, b, i + 1);
    }
}

/// The order is asymmetric: no two sequences precede each other.
pub proof fn lemma_lex_lt_asymmetric(a: Seq<char>, b: Seq<char>)
    requires
        lex_lt(a, b),
    ensures
        !lex_lt(b, a),
{
    lemma_lex_lt_from_asymmetric(a, b, 0);
}

proof fn lemma_lex_lt_from_asymmetric(a: Seq<char>, b: Seq<char>, i: int)
    requires
        0 <= i,
        lex_lt_from(a, b, i),
    ensures
        !lex_lt_from(b, a, i),
    decreases a.len() - i,
{
    if i < a.len() && i < b.len() && a[i] == b[i] {
        lemma_lex_lt_from_asymmetric(a, b, i + 1);
    }
}

/// No sequence precedes itself.
pub proof fn lemma_lex_lt_irreflexive(a: Seq<char>)
    ensures
        !lex_lt(a, a),
{
    if lex_lt(a, a) {
        lemma_lex_lt_asymmetric(a, a);
    }
}

/// The order is transitive.
pub proof fn lemma_lex_lt_transitive(a: Seq<char>, b: Seq<char>, c: Seq<char>)
    requires
        lex_lt(a, b),
        lex_lt(b, c),
    ensures
        lex_lt(a, c),
{
    lemma_lex_lt_from_transitive(a, b, c, 0);
}

proof fn lemma_lex_lt_from_transitive(a: Seq<char>, b: Seq<char>, c: Seq<char>, i: int)
    requires
        0 <= i,
        lex_lt_from(a, b, i),
        lex_lt_from(b, c, i),
    ensures
        lex_lt_from(a, c, i),
    decreases a.len() - i,
{
    if i < a.len() && i < b.len() && i < c.len() && a[i] == b[i] && b[i] == c[i] {
        lemma_lex_lt_from_transitive(a, b, c, i + 1);
    }
}

} // verus!
