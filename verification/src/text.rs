//! Verified character-level string utilities.
//!
//! Everything here treats a string as its sequence of characters. Ordering
//! is by Unicode scalar value, which agrees with the byte-wise ordering that
//! `str` comparison uses, since UTF-8 encoding preserves scalar-value order.

use vstd::prelude::*;
use vstd::string::*;
use crate::ext::{char_is_ws, is_ws};

verus! {

/// The string has at least one non-whitespace character, i.e. it does not
/// trim to empty.
pub open spec fn non_blank(s: Seq<char>) -> bool {
    exists|i: int| 0 <= i < s.len() && !is_ws(s[i])
}

/// Whether the string trims to something non-empty.
pub fn str_non_blank(s: &str) -> (r: bool)
    ensures
        r == non_blank(s@),
{
    let n = s.unicode_len();
    let mut i: usize = 0;
    while i < n
        invariant
            n == s@.len(),
            i <= n,
            forall|j: int| 0 <= j < i ==> is_ws(s@[j]),
        decreases n - i,
    {
        if !char_is_ws(s.get_char(i)) {
            assert(!is_ws(s@[i as int]));
            return true;
        }
        i += 1;
    }
    false
}

/// The needle `n` occurs in `h` starting at character position `i`.
pub open spec fn is_at(h: Seq<char>, n: Seq<char>, i: int) -> bool {
    0 <= i && i + n.len() <= h.len() && h.subrange(i, i + n.len() as int) == n
}

/// `h` contains `n` as a contiguous subsequence.
pub open spec fn contains_sub(h: Seq<char>, n: Seq<char>) -> bool {
    exists|i: int| is_at(h, n, i)
}

/// Position of the first occurrence of `n` in `h`, if any.
pub open spec fn find_sub(h: Seq<char>, n: Seq<char>) -> Option<int>
    decreases h.len(),
{
    if is_at(h, n, 0) {
        Some(0)
    } else if h.len() == 0 {
        None
    } else {
        match find_sub(h.subrange(1, h.len() as int), n) {
            Some(i) => Some(i + 1),
            None => None,
        }
    }
}

/// `find_sub` returns exactly the least match position, and `None` exactly
/// when there is no match.
pub proof fn lemma_find_sub(h: Seq<char>, n: Seq<char>)
    ensures
        match find_sub(h, n) {
            Some(i) => is_at(h, n, i) && forall|j: int| 0 <= j < i ==> !is_at(h, n, j),
            None => !contains_sub(h, n),
        },
    decreases h.len(),
{
    if is_at(h, n, 0) {
    } else if h.len() == 0 {
        assert forall|i: int| !is_at(h, n, i) by {
            if 0 <= i && i + n.len() <= h.len() {
                assert(h.subrange(i, i + n.len() as int) =~= h);
            }
        }
    } else {
        let t = h.subrange(1, h.len() as int);
        lemma_find_sub(t, n);
        assert forall|i: int| 1 <= i implies is_at(h, n, i) == is_at(t, n, i - 1) by {
            if i + n.len() <= h.len() {
                assert(t.subrange(i - 1, i - 1 + n.len() as int) =~= h.subrange(
                    i,
                    i + n.len() as int,
                ));
            }
        }
        match find_sub(t, n) {
            Some(i) => {
                assert(is_at(h, n, i + 1));
            },
            None => {
                assert forall|i: int| !is_at(h, n, i) by {
                    if 1 <= i {
                        assert(is_at(h, n, i) == is_at(t, n, i - 1));
                    }
                }
            },
        }
    }
}

/// A match at `i` with no match before it is the first match.
pub proof fn lemma_find_sub_at(h: Seq<char>, n: Seq<char>, i: int)
    requires
        is_at(h, n, i),
        forall|j: int| 0 <= j < i ==> !is_at(h, n, j),
    ensures
        find_sub(h, n) == Some(i),
{
    lemma_find_sub(h, n);
    match find_sub(h, n) {
        Some(m) => {
            if m < i {
                assert(!is_at(h, n, m));
            }
            if m > i {
                assert(!is_at(h, n, i));
            }
        },
        None => {
            assert(contains_sub(h, n)) by {
                assert(is_at(h, n, i));
            }
        },
    }
}

/// Whether the `n.len()` characters of `h` starting at `i` equal `n`.
fn window_eq(h: &str, n: &str, i: usize, hlen: usize, nlen: usize) -> (r: bool)
    requires
        hlen == h@.len(),
        nlen == n@.len(),
        i + nlen <= hlen,
    ensures
        r == is_at(h@, n@, i as int),
{
    let mut k: usize = 0;
    while k < nlen
        invariant
            k <= nlen,
            hlen == h@.len(),
            nlen == n@.len(),
            i + nlen <= hlen,
            h@.subrange(i as int, i + k as int) =~= n@.subrange(0, k as int),
        decreases nlen - k,
    {
        if h.get_char(i + k) != n.get_char(k) {
            assert(h@.subrange(i as int, i + nlen as int) != n@) by {
                assert(h@.subrange(i as int, i + nlen as int)[k as int] == h@[i + k]);
            }
            return false;
        }
        assert(h@.subrange(i as int, i + (k + 1) as int) =~= n@.subrange(0, k + 1 as int));
        k += 1;
    }
    assert(h@.subrange(i as int, i + nlen as int) =~= n@);
    true
}

/// Position of the first occurrence of `n` in `h`, by characters.
pub fn find_in(h: &str, n: &str) -> (r: Option<usize>)
    ensures
        match r {
            Some(i) => Some(i as int) == find_sub(h@, n@),
            None => find_sub(h@, n@) is None,
        },
{
    proof {
        lemma_find_sub(h@, n@);
    }
    let hlen: usize = h.unicode_len();
    let nlen: usize = n.unicode_len();
    if nlen > hlen {
        assert(forall|j: int| !is_at(h@, n@, j));
        return None;
    }
    if nlen == 0 {
        assert(h@.subrange(0, 0) =~= n@);
        assert(is_at(h@, n@, 0));
        return Some(0);
    }
    let mut i: usize = 0;
    while i <= hlen - nlen
        invariant
            hlen == h@.len(),
            nlen == n@.len(),
            1 <= nlen <= hlen,
            i <= hlen - nlen + 1,
            forall|j: int| 0 <= j < i ==> !is_at(h@, n@, j),
        decreases hlen - nlen + 1 - i,
    {
        if window_eq(h, n, i, hlen, nlen) {
            proof {
                lemma_find_sub_at(h@, n@, i as int);
            }
            return Some(i);
        }
        i += 1;
    }
    assert(forall|j: int| i <= j ==> !is_at(h@, n@, j));
    None
}

/// `h` contains `n`, by characters.
pub fn contains_str(h: &str, n: &str) -> (r: bool)
    ensures
        r == contains_sub(h@, n@),
{
    proof {
        lemma_find_sub(h@, n@);
    }
    find_in(h, n).is_some()
}

/// Lexicographic order on character sequences, by Unicode scalar value.
pub open spec fn str_le(a: Seq<char>, b: Seq<char>) -> bool
    decreases a.len(),
{
    if a.len() == 0 {
        true
    } else if b.len() == 0 {
        false
    } else if (a[0] as u32) < (b[0] as u32) {
        true
    } else if (a[0] as u32) > (b[0] as u32) {
        false
    } else {
        str_le(a.drop_first(), b.drop_first())
    }
}

/// `str_le` is total.
pub proof fn lemma_str_le_total(a: Seq<char>, b: Seq<char>)
    ensures
        str_le(a, b) || str_le(b, a),
    decreases a.len(),
{
    broadcast use vstd::utf8::char_u32_cast;

    if a.len() > 0 && b.len() > 0 && (a[0] as u32) == (b[0] as u32) {
        lemma_str_le_total(a.drop_first(), b.drop_first());
    }
}

/// `str_le` is transitive.
pub proof fn lemma_str_le_trans(a: Seq<char>, b: Seq<char>, c: Seq<char>)
    requires
        str_le(a, b),
        str_le(b, c),
    ensures
        str_le(a, c),
    decreases a.len(),
{
    broadcast use vstd::utf8::char_u32_cast;

    if a.len() > 0 && b.len() > 0 && c.len() > 0 && (a[0] as u32) == (b[0] as u32) && (b[0] as u32)
        == (c[0] as u32) {
        lemma_str_le_trans(a.drop_first(), b.drop_first(), c.drop_first());
    }
}

/// Compare two strings lexicographically by characters.
pub fn str_le_exec(a: &str, b: &str) -> (r: bool)
    ensures
        r == str_le(a@, b@),
{
    let alen = a.unicode_len();
    let blen = b.unicode_len();
    let mut i: usize = 0;
    proof {
        assert(a@.skip(0) =~= a@);
        assert(b@.skip(0) =~= b@);
    }
    while i < alen && i < blen
        invariant
            alen == a@.len(),
            blen == b@.len(),
            i <= alen,
            i <= blen,
            str_le(a@, b@) == str_le(a@.skip(i as int), b@.skip(i as int)),
            forall|j: int| 0 <= j < i ==> a@[j] == b@[j],
        decreases alen - i,
    {
        let ca = a.get_char(i);
        let cb = b.get_char(i);
        proof {
            assert(a@.skip(i as int)[0] == a@[i as int]);
            assert(b@.skip(i as int)[0] == b@[i as int]);
            assert(a@.skip(i as int).drop_first() =~= a@.skip(i + 1 as int));
            assert(b@.skip(i as int).drop_first() =~= b@.skip(i + 1 as int));
        }
        if (ca as u32) < (cb as u32) {
            return true;
        }
        if (ca as u32) > (cb as u32) {
            return false;
        }
        proof {
            assert(ca == cb) by {
                vstd::utf8::char_u32_cast(ca, ca as u32);
                vstd::utf8::char_u32_cast(cb, cb as u32);
            }
        }
        i += 1;
    }
    proof {
        if i == alen {
            assert(a@.skip(i as int).len() == 0);
        } else {
            assert(b@.skip(i as int).len() == 0);
            assert(a@.skip(i as int).len() > 0);
        }
    }
    alen <= blen
}

/// Leading whitespace removed.
pub open spec fn trim_start(s: Seq<char>) -> Seq<char>
    decreases s.len(),
{
    if s.len() > 0 && is_ws(s[0]) {
        trim_start(s.drop_first())
    } else {
        s
    }
}

/// Trailing whitespace removed.
pub open spec fn trim_end(s: Seq<char>) -> Seq<char>
    decreases s.len(),
{
    if s.len() > 0 && is_ws(s.last()) {
        trim_end(s.drop_last())
    } else {
        s
    }
}

/// Whitespace removed from both ends.
pub open spec fn trimmed(s: Seq<char>) -> Seq<char> {
    trim_end(trim_start(s))
}

/// `trim_start` drops exactly the leading run of whitespace.
proof fn lemma_trim_start_skip(s: Seq<char>, k: int)
    requires
        0 <= k <= s.len(),
        forall|j: int| 0 <= j < k ==> is_ws(s[j]),
        k < s.len() ==> !is_ws(s[k]),
    ensures
        trim_start(s) == s.skip(k),
    decreases k,
{
    if k == 0 {
        assert(s.skip(0) =~= s);
    } else {
        lemma_trim_start_skip(s.drop_first(), k - 1);
        assert(s.drop_first().skip(k - 1) =~= s.skip(k));
    }
}

/// `trim_end` drops exactly the trailing run of whitespace.
proof fn lemma_trim_end_take(s: Seq<char>, k: int)
    requires
        0 <= k <= s.len(),
        forall|j: int| k <= j < s.len() ==> is_ws(s[j]),
        k > 0 ==> !is_ws(s[k - 1]),
    ensures
        trim_end(s) == s.take(k),
    decreases s.len() - k,
{
    if k == s.len() {
        assert(s.take(k) =~= s);
    } else {
        lemma_trim_end_take(s.drop_last(), k);
        assert(s.drop_last().take(k) =~= s.take(k));
    }
}

/// Trim whitespace from both ends of a string.
#[verifier::loop_isolation(false)]
pub fn trim_str(s: &str) -> (r: String)
    ensures
        r@ == trimmed(s@),
{
    let n = s.unicode_len();
    let mut start: usize = 0;
    while start < n && char_is_ws(s.get_char(start))
        invariant
            start <= n,
            forall|j: int| 0 <= j < start ==> is_ws(s@[j]),
        decreases n - start,
    {
        start += 1;
    }
    proof {
        lemma_trim_start_skip(s@, start as int);
    }
    let mut end: usize = n;
    while end > start && char_is_ws(s.get_char(end - 1))
        invariant
            start <= end <= n,
            forall|j: int| end <= j < n ==> is_ws(s@[j]),
        decreases end,
    {
        end -= 1;
    }
    proof {
        let t = s@.skip(start as int);
        lemma_trim_end_take(t, end - start as int);
        assert(t.take(end - start as int) =~= s@.subrange(start as int, end as int));
        if end == start && start < n {
            assert(!is_ws(s@[start as int]));
            assert(false);
        }
    }
    String::from_str(s.substring_char(start, end))
}

/// The two strings have equal character sequences.
pub fn str_eq(a: &str, b: &str) -> (r: bool)
    ensures
        r == (a@ == b@),
{
    let alen: usize = a.unicode_len();
    let blen: usize = b.unicode_len();
    if alen != blen {
        return false;
    }
    let mut k: usize = 0;
    while k < alen
        invariant
            k <= alen,
            alen == a@.len(),
            alen == b@.len(),
            a@.subrange(0, k as int) =~= b@.subrange(0, k as int),
        decreases alen - k,
    {
        if a.get_char(k) != b.get_char(k) {
            assert(a@ != b@) by {
                assert(a@[k as int] != b@[k as int]);
            }
            return false;
        }
        assert(a@.subrange(0, k + 1 as int) =~= b@.subrange(0, k + 1 as int));
        k += 1;
    }
    assert(a@.subrange(0, alen as int) =~= a@);
    assert(b@.subrange(0, alen as int) =~= b@);
    true
}

} // verus!
