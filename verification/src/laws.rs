//! General properties of the library, stated and proved once.

use vstd::prelude::*;
use crate::dashboard::{
    all_sessions, d_in, d_out, d_touch, dur_cnt, dur_sum, first_pts, l_d_in, l_d_out, last_pts,
    line_date, proj_stats_of, sess_dur, sess_dur_cnt, sum_dash, sum_h, tree_lines,
};
use crate::ext::usage_of;
use crate::message::messages_of;
use crate::sums::{line_in, line_msgs, line_out, sum_in, sum_msgs, sum_out};
use crate::text::non_blank;
use crate::tree::{session_lines, ProjectDirV, SessionFileV};

verus! {

/// Removing any one line takes exactly that line's contribution out of each
/// session aggregate.
proof fn lemma_sums_remove(s: Seq<Seq<char>>, j: int)
    requires
        0 <= j < s.len(),
    ensures
        sum_in(s) == sum_in(s.remove(j)) + line_in(s[j]),
        sum_out(s) == sum_out(s.remove(j)) + line_out(s[j]),
        sum_msgs(s) == sum_msgs(s.remove(j)) + line_msgs(s[j]),
    decreases s.len(),
{
    if j == s.len() - 1 {
        assert(s.remove(j) =~= s.drop_last());
    } else {
        lemma_sums_remove(s.drop_last(), j);
        assert(s.remove(j).drop_last() =~= s.drop_last().remove(j));
        assert(s.remove(j).last() == s.last());
    }
}

/// Reordering a transcript's lines changes none of the session aggregates:
/// token totals and the message count are pure folds, independent of line
/// order. Only the message *listing* is order-dependent, and it equals the
/// file's line order exactly.
pub proof fn lemma_stats_reorder(a: Seq<Seq<char>>, b: Seq<Seq<char>>)
    requires
        a.to_multiset() == b.to_multiset(),
    ensures
        sum_in(a) == sum_in(b),
        sum_out(a) == sum_out(b),
        sum_msgs(a) == sum_msgs(b),
    decreases a.len(),
{
    broadcast use vstd::seq_lib::group_to_multiset_ensures;
    broadcast use vstd::multiset::group_multiset_axioms;

    if a.len() == 0 {
        assert(b.len() == 0) by {
            a.to_multiset_ensures();
            b.to_multiset_ensures();
        }
    } else {
        let x = a.last();
        assert(a.to_multiset().count(x) > 0) by {
            assert(a.contains(x));
        }
        assert(b.contains(x));
        let j = choose|j: int| 0 <= j < b.len() && b[j] == x;
        assert(a.drop_last() =~= a.remove(a.len() - 1));
        assert(a.remove(a.len() - 1).to_multiset() =~= a.to_multiset().remove(x));
        assert(b.remove(j).to_multiset() =~= b.to_multiset().remove(x));
        lemma_stats_reorder(a.drop_last(), b.remove(j));
        lemma_sums_remove(b, j);
    }
}

/// The message count is exactly the length of the message listing.
pub proof fn lemma_count_is_listing_length(lines: Seq<Seq<char>>)
    ensures
        sum_msgs(lines) == messages_of(lines).len(),
    decreases lines.len(),
{
    if lines.len() > 0 {
        lemma_count_is_listing_length(lines.drop_last());
    }
}

/// Token accounting: a non-blank line with a `message.usage` object adds its
/// counters to the session totals and to its day's bucket, with no condition
/// on the line's `type` or on whether the line is a displayable message.
pub proof fn lemma_token_accounting(
    lines: Seq<Seq<char>>,
    line: Seq<char>,
    u: (u64, u64),
    d: Seq<char>,
)
    requires
        non_blank(line),
        usage_of(line) == Some(u),
    ensures
        sum_in(lines.push(line)) == sum_in(lines) + u.0,
        sum_out(lines.push(line)) == sum_out(lines) + u.1,
        line_date(line) == Some(d) ==> l_d_in(line, d) == u.0 && l_d_out(line, d) == u.1,
        line_date(line) == Some(d) ==> d_in(lines.push(line), d) == d_in(lines, d) + u.0,
        line_date(line) == Some(d) ==> d_out(lines.push(line), d) == d_out(lines, d) + u.1,
{
    crate::dashboard::lemma_line_push(lines, line);
}

/// An empty projects tree aggregates to nothing: zero totals, no sessions,
/// no daily or hourly buckets, no project statistics.
pub proof fn lemma_dashboard_empty(tree: Seq<ProjectDirV>)
    requires
        tree.len() == 0,
    ensures
        sum_in(tree_lines(tree)) == 0,
        sum_out(tree_lines(tree)) == 0,
        sum_dash(tree_lines(tree)) == 0,
        all_sessions(tree).len() == 0,
        dur_sum(all_sessions(tree)) == 0,
        dur_cnt(all_sessions(tree)) == 0,
        proj_stats_of(tree) == Seq::<crate::dashboard::ProjectStatsV>::empty(),
        forall|d: Seq<char>| #[trigger] d_touch(tree_lines(tree), d) == 0,
        forall|b: int| #[trigger] sum_h(tree_lines(tree), b) == 0,
{
}

/// The average-session accounting excludes exactly the sessions that should
/// be excluded: one with no parseable timestamp pair, or whose last
/// timestamp is not after its first, contributes neither duration nor a
/// sample; and a session whose first and last parse are the same moment is
/// always excluded.
pub proof fn lemma_session_span_exclusion(s: SessionFileV)
    ensures
        sess_dur_cnt(s) == 1 <==> (first_pts(session_lines(s)) matches Some(f)
            && last_pts(session_lines(s)) matches Some(l) && l.secs > f.secs),
        sess_dur_cnt(s) == 0 ==> sess_dur(s) == 0,
        first_pts(session_lines(s)) == last_pts(session_lines(s)) ==> sess_dur_cnt(s) == 0
            && sess_dur(s) == 0,
{
}

} // verus!
