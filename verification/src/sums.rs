//! Streaming accumulation: per-line contributions summed over a transcript.
//!
//! Counters in the public structs are fixed-width, so every accumulated sum
//! is stated exactly as the mathematical sum capped at the counter's maximum;
//! the executable code accumulates with saturation and never overflows.

use vstd::prelude::*;
use vstd::multiset::Multiset;
use crate::ext::usage_of;
use crate::message::message_of_line;
use crate::text::non_blank;

verus! {

/// A mathematical sum squeezed into a `u64` counter.
pub open spec fn cap_u64(n: nat) -> u64 {
    if n > u64::MAX as nat {
        u64::MAX
    } else {
        n as u64
    }
}

/// A mathematical sum squeezed into a `u32` counter.
pub open spec fn cap_u32(n: nat) -> u32 {
    if n > u32::MAX as nat {
        u32::MAX
    } else {
        n as u32
    }
}

/// Whether a line yields a displayable message: its contribution to the
/// message count.
pub open spec fn line_msgs(line: Seq<char>) -> nat {
    if message_of_line(line) is Some {
        1
    } else {
        0
    }
}

/// A line's contribution of input tokens: `message.usage.input_tokens` of a
/// non-blank line, whether or not the line is a displayable message.
pub open spec fn line_in(line: Seq<char>) -> nat {
    if non_blank(line) {
        match usage_of(line) {
            Some(u) => u.0 as nat,
            None => 0,
        }
    } else {
        0
    }
}

/// A line's contribution of output tokens.
pub open spec fn line_out(line: Seq<char>) -> nat {
    if non_blank(line) {
        match usage_of(line) {
            Some(u) => u.1 as nat,
            None => 0,
        }
    } else {
        0
    }
}

/// The input tokens of a transcript: the sum of per-line contributions.
pub open spec fn sum_in(lines: Seq<Seq<char>>) -> nat
    decreases lines.len(),
{
    if lines.len() == 0 {
        0
    } else {
        sum_in(lines.drop_last()) + line_in(lines.last())
    }
}

/// The output tokens of a transcript.
pub open spec fn sum_out(lines: Seq<Seq<char>>) -> nat
    decreases lines.len(),
{
    if lines.len() == 0 {
        0
    } else {
        sum_out(lines.drop_last()) + line_out(lines.last())
    }
}

/// The displayable-message count of a transcript.
pub open spec fn sum_msgs(lines: Seq<Seq<char>>) -> nat
    decreases lines.len(),
{
    if lines.len() == 0 {
        0
    } else {
        sum_msgs(lines.drop_last()) + line_msgs(lines.last())
    }
}

/// One more line extends each sum by that line's contribution.
pub proof fn lemma_sums_take(lines: Seq<Seq<char>>, i: int)
    requires
        0 <= i < lines.len(),
    ensures
        sum_in(lines.take(i + 1)) == sum_in(lines.take(i)) + line_in(lines[i]),
        sum_out(lines.take(i + 1)) == sum_out(lines.take(i)) + line_out(lines[i]),
        sum_msgs(lines.take(i + 1)) == sum_msgs(lines.take(i)) + line_msgs(lines[i]),
{
    assert(lines.take(i + 1).drop_last() =~= lines.take(i));
    assert(lines.take(i + 1).last() == lines[i]);
}

/// Saturating add, stated through `cap_u64`.
pub fn sat_add_u64(a: u64, b: u64) -> (r: u64)
    ensures
        r == cap_u64(a as nat + b as nat),
{
    if a <= u64::MAX - b {
        a + b
    } else {
        u64::MAX
    }
}

/// Saturating increment, stated through `cap_u32`.
pub fn sat_inc_u32(c: u32) -> (r: u32)
    ensures
        r == cap_u32(c as nat + 1),
{
    if c < u32::MAX {
        c + 1
    } else {
        c
    }
}

/// A capped accumulator absorbs a new contribution as the cap of the sum.
pub proof fn lemma_cap_u64_add(s: nat, b: nat, acc: u64)
    requires
        acc == cap_u64(s),
        b <= u64::MAX,
    ensures
        cap_u64(acc as nat + b) == cap_u64(s + b),
{
}

/// A capped counter absorbs an increment as the cap of the count.
pub proof fn lemma_cap_u32_inc(s: nat, acc: u32)
    requires
        acc == cap_u32(s),
    ensures
        cap_u32(acc as nat + 1) == cap_u32(s + 1),
{
}

/// Inserting anywhere in a sequence inserts into its multiset.
pub proof fn lemma_insert_to_multiset<A>(s: Seq<A>, k: int, x: A)
    requires
        0 <= k <= s.len(),
    ensures
        s.insert(k, x).to_multiset() =~= s.to_multiset().insert(x),
{
    broadcast use vstd::seq_lib::group_to_multiset_ensures;

}

/// Removing the first element removes it from the multiset.
pub proof fn lemma_drop_first_to_multiset<A>(s: Seq<A>)
    requires
        s.len() > 0,
    ensures
        s.to_multiset() =~= s.remove(0).to_multiset().insert(s[0]),
{
    broadcast use vstd::seq_lib::group_to_multiset_ensures;
    broadcast use vstd::multiset::group_multiset_axioms;

    assert(s.remove(0).to_multiset() =~= s.to_multiset().remove(s[0]));
    assert(s.to_multiset().count(s[0]) > 0) by {
        assert(s.contains(s[0]));
    }
}

/// An empty sequence has an empty multiset, and adding an empty multiset
/// changes nothing.
pub proof fn lemma_empty_to_multiset<A>(s: Seq<A>, m: Multiset<A>)
    requires
        s.len() == 0,
    ensures
        m.add(s.to_multiset()) =~= m,
        s.to_multiset().add(m) =~= m,
{
    broadcast use vstd::seq_lib::group_to_multiset_ensures;
    broadcast use vstd::multiset::group_multiset_axioms;

    vstd::multiset::lemma_multiset_empty_len(s.to_multiset());
}

} // verus!
