//! The activity aggregator: one pass over every transcript line, folded
//! into totals, per-day and per-hour buckets, per-project statistics, and
//! session-duration figures.
//!
//! All counters are fixed-width, so each is stated as the mathematical sum
//! capped at its maximum. The two derived figures the caller usually wants
//! as floating point — estimated cost and average session minutes — are
//! returned in exact integer form: cost in micro-dollars, and the duration
//! total with its sample count, for the caller to divide.

use vstd::prelude::*;
use vstd::string::*;
use vstd::pervasive::VecAdditionalExecFns;
use crate::ext::{json_str_field, json_usage, parse_rfc3339, rfc3339_of, str_field_of, usage_of, ParsedTs, ParsedTsV};
use crate::message::is_user_or_assistant;
use crate::projects::project_name_of;
use crate::projects::project_name_from_dir;
use crate::sums::{
    cap_u32, cap_u64, lemma_drop_first_to_multiset, lemma_empty_to_multiset,
    lemma_insert_to_multiset, line_in, line_out, sat_add_u64, sat_inc_u32, sum_in, sum_out,
};
use crate::text::{
    find_in, find_sub, lemma_str_le_total, lemma_str_le_trans, non_blank, str_eq, str_le,
    str_le_exec, str_non_blank,
};
use crate::tree::{session_lines, ProjectDir, ProjectDirV, SessionFileV};

verus! {

/// Daily totals, keyed by the date portion of the timestamp string.
pub struct DailyStats {
    pub date: String,
    pub input_tokens: u64,
    pub output_tokens: u64,
    pub session_count: u32,
    pub message_count: u32,
}

#[verifier::ext_equal]
pub ghost struct DailyStatsV {
    pub date: Seq<char>,
    pub input_tokens: u64,
    pub output_tokens: u64,
    pub session_count: u32,
    pub message_count: u32,
}

impl DeepView for DailyStats {
    type V = DailyStatsV;

    open spec fn deep_view(&self) -> DailyStatsV {
        DailyStatsV {
            date: self.date@,
            input_tokens: self.input_tokens,
            output_tokens: self.output_tokens,
            session_count: self.session_count,
            message_count: self.message_count,
        }
    }
}

/// One hour-of-week bucket with at least one event.
pub struct HourlyActivity {
    pub hour: u8,
    pub day: u8,
    pub count: u32,
}

#[verifier::ext_equal]
pub ghost struct HourlyActivityV {
    pub hour: u8,
    pub day: u8,
    pub count: u32,
}

impl DeepView for HourlyActivity {
    type V = HourlyActivityV;

    open spec fn deep_view(&self) -> HourlyActivityV {
        HourlyActivityV { hour: self.hour, day: self.day, count: self.count }
    }
}

/// Per-project totals.
pub struct ProjectStats {
    pub name: String,
    pub path: String,
    pub total_input_tokens: u64,
    pub total_output_tokens: u64,
    pub session_count: u32,
}

#[verifier::ext_equal]
pub ghost struct ProjectStatsV {
    pub name: Seq<char>,
    pub path: Seq<char>,
    pub total_input_tokens: u64,
    pub total_output_tokens: u64,
    pub session_count: u32,
}

impl DeepView for ProjectStats {
    type V = ProjectStatsV;

    open spec fn deep_view(&self) -> ProjectStatsV {
        ProjectStatsV {
            name: self.name@,
            path: self.path@,
            total_input_tokens: self.total_input_tokens,
            total_output_tokens: self.total_output_tokens,
            session_count: self.session_count,
        }
    }
}

/// The root aggregate.
pub struct DashboardStats {
    pub total_input_tokens: u64,
    pub total_output_tokens: u64,
    pub total_sessions: u32,
    pub total_messages: u32,
    pub daily_stats: Vec<DailyStats>,
    pub hourly_activity: Vec<HourlyActivity>,
    pub project_stats: Vec<ProjectStats>,
    pub estimated_cost_micros: u64,
    pub session_duration_total_secs: u64,
    pub sessions_with_duration: u32,
}

/// A line that counts as a message for the aggregator: any non-blank JSON
/// line whose `type` is user or assistant, displayable text or not.
pub open spec fn dash_msg(line: Seq<char>) -> bool {
    non_blank(line) && is_user_or_assistant(line)
}

/// The date portion of a timestamp string: everything before the first `T`.
pub open spec fn date_of(t: Seq<char>) -> Seq<char> {
    match find_sub(t, "T"@) {
        Some(i) => t.take(i),
        None => t,
    }
}

/// The date a line's timestamp carries, when the field is present.
pub open spec fn line_date(line: Seq<char>) -> Option<Seq<char>> {
    match str_field_of(line, "timestamp"@) {
        Some(t) => Some(date_of(t)),
        None => None,
    }
}

/// The count of aggregator messages.
pub open spec fn sum_dash(lines: Seq<Seq<char>>) -> nat
    decreases lines.len(),
{
    if lines.len() == 0 {
        0
    } else {
        sum_dash(lines.drop_last()) + if dash_msg(lines.last()) {
            1nat
        } else {
            0nat
        }
    }
}

/// A line's message contribution to a date's bucket.
pub open spec fn l_d_msgs(line: Seq<char>, d: Seq<char>) -> nat {
    if dash_msg(line) && line_date(line) == Some(d) {
        1
    } else {
        0
    }
}

/// A line's input-token contribution to a date's bucket.
pub open spec fn l_d_in(line: Seq<char>, d: Seq<char>) -> nat {
    if non_blank(line) && usage_of(line) is Some && line_date(line) == Some(d) {
        line_in(line)
    } else {
        0
    }
}

pub open spec fn l_d_out(line: Seq<char>, d: Seq<char>) -> nat {
    if non_blank(line) && usage_of(line) is Some && line_date(line) == Some(d) {
        line_out(line)
    } else {
        0
    }
}

/// Whether a line touches a date's bucket at all (a message, or usage with
/// a timestamp — even zero tokens create the day's entry).
pub open spec fn l_d_touch(line: Seq<char>, d: Seq<char>) -> nat {
    if (dash_msg(line) || (non_blank(line) && usage_of(line) is Some)) && line_date(line) == Some(
        d,
    ) {
        1
    } else {
        0
    }
}

pub open spec fn d_msgs(lines: Seq<Seq<char>>, d: Seq<char>) -> nat
    decreases lines.len(),
{
    if lines.len() == 0 {
        0
    } else {
        d_msgs(lines.drop_last(), d) + l_d_msgs(lines.last(), d)
    }
}

pub open spec fn d_in(lines: Seq<Seq<char>>, d: Seq<char>) -> nat
    decreases lines.len(),
{
    if lines.len() == 0 {
        0
    } else {
        d_in(lines.drop_last(), d) + l_d_in(lines.last(), d)
    }
}

pub open spec fn d_out(lines: Seq<Seq<char>>, d: Seq<char>) -> nat
    decreases lines.len(),
{
    if lines.len() == 0 {
        0
    } else {
        d_out(lines.drop_last(), d) + l_d_out(lines.last(), d)
    }
}

pub open spec fn d_touch(lines: Seq<Seq<char>>, d: Seq<char>) -> nat
    decreases lines.len(),
{
    if lines.len() == 0 {
        0
    } else {
        d_touch(lines.drop_last(), d) + l_d_touch(lines.last(), d)
    }
}

/// The parse of a message line's timestamp, for the hourly grid and the
/// session span.
pub open spec fn line_pts(line: Seq<char>) -> Option<ParsedTsV> {
    if dash_msg(line) {
        match str_field_of(line, "timestamp"@) {
            Some(t) => rfc3339_of(t),
            None => None,
        }
    } else {
        None
    }
}

/// A line's contribution to an hour-of-week bucket.
pub open spec fn l_h(line: Seq<char>, b: int) -> nat {
    match line_pts(line) {
        Some(p) => if p.weekday * 24 + p.hour == b {
            1
        } else {
            0
        },
        None => 0,
    }
}

pub open spec fn sum_h(lines: Seq<Seq<char>>, b: int) -> nat
    decreases lines.len(),
{
    if lines.len() == 0 {
        0
    } else {
        sum_h(lines.drop_last(), b) + l_h(lines.last(), b)
    }
}

/// The first parseable message timestamp of a session, in line order.
pub open spec fn first_pts(lines: Seq<Seq<char>>) -> Option<ParsedTsV>
    decreases lines.len(),
{
    if lines.len() == 0 {
        None
    } else {
        match first_pts(lines.drop_last()) {
            Some(p) => Some(p),
            None => line_pts(lines.last()),
        }
    }
}

/// The last parseable message timestamp of a session, in line order.
pub open spec fn last_pts(lines: Seq<Seq<char>>) -> Option<ParsedTsV>
    decreases lines.len(),
{
    if lines.len() == 0 {
        None
    } else {
        match line_pts(lines.last()) {
            Some(p) => Some(p),
            None => last_pts(lines.drop_last()),
        }
    }
}

/// A session's wall-clock span in seconds: positive spans only; a session
/// with fewer than two parseable timestamps, or a non-positive span,
/// contributes nothing.
pub open spec fn sess_dur(s: SessionFileV) -> nat {
    match (first_pts(session_lines(s)), last_pts(session_lines(s))) {
        (Some(f), Some(l)) => if l.secs > f.secs {
            (l.secs - f.secs) as nat
        } else {
            0
        },
        _ => 0,
    }
}

/// Whether a session contributes a duration sample.
pub open spec fn sess_dur_cnt(s: SessionFileV) -> nat {
    match (first_pts(session_lines(s)), last_pts(session_lines(s))) {
        (Some(f), Some(l)) => if l.secs > f.secs {
            1nat
        } else {
            0nat
        },
        _ => 0,
    }
}

pub open spec fn dur_sum(ss: Seq<SessionFileV>) -> nat
    decreases ss.len(),
{
    if ss.len() == 0 {
        0
    } else {
        dur_sum(ss.drop_last()) + sess_dur(ss.last())
    }
}

pub open spec fn dur_cnt(ss: Seq<SessionFileV>) -> nat
    decreases ss.len(),
{
    if ss.len() == 0 {
        0
    } else {
        dur_cnt(ss.drop_last()) + sess_dur_cnt(ss.last())
    }
}

/// The lines of one project, session by session.
pub open spec fn proj_lines(ss: Seq<SessionFileV>) -> Seq<Seq<char>>
    decreases ss.len(),
{
    if ss.len() == 0 {
        Seq::empty()
    } else {
        proj_lines(ss.drop_last()) + session_lines(ss.last())
    }
}

/// The lines of the whole tree, project by project.
pub open spec fn tree_lines(tree: Seq<ProjectDirV>) -> Seq<Seq<char>>
    decreases tree.len(),
{
    if tree.len() == 0 {
        Seq::empty()
    } else {
        tree_lines(tree.drop_last()) + proj_lines(tree.last().sessions)
    }
}

/// Every session of the tree, project by project.
pub open spec fn all_sessions(tree: Seq<ProjectDirV>) -> Seq<SessionFileV>
    decreases tree.len(),
{
    if tree.len() == 0 {
        Seq::empty()
    } else {
        all_sessions(tree.drop_last()) + tree.last().sessions
    }
}

/// The per-project statistics, in tree order, before sorting: a project is
/// included exactly when it has at least one transcript file.
pub open spec fn proj_stats_of(tree: Seq<ProjectDirV>) -> Seq<ProjectStatsV>
    decreases tree.len(),
{
    if tree.len() == 0 {
        Seq::empty()
    } else {
        proj_stats_of(tree.drop_last()) + if tree.last().sessions.len() > 0 {
            seq![
                ProjectStatsV {
                    name: project_name_of(tree.last().dir_name),
                    path: tree.last().path,
                    total_input_tokens: cap_u64(sum_in(proj_lines(tree.last().sessions))),
                    total_output_tokens: cap_u64(sum_out(proj_lines(tree.last().sessions))),
                    session_count: cap_u32(tree.last().sessions.len()),
                },
            ]
        } else {
            Seq::empty()
        }
    }
}

/// One appended line extends every line-level sum by its contribution.
pub proof fn lemma_line_push(s: Seq<Seq<char>>, l: Seq<char>)
    ensures
        sum_in(s.push(l)) == sum_in(s) + line_in(l),
        sum_out(s.push(l)) == sum_out(s) + line_out(l),
        sum_dash(s.push(l)) == sum_dash(s) + if dash_msg(l) {
            1nat
        } else {
            0nat
        },
        forall|d: Seq<char>| #[trigger] d_msgs(s.push(l), d) == d_msgs(s, d) + l_d_msgs(l, d),
        forall|d: Seq<char>| #[trigger] d_in(s.push(l), d) == d_in(s, d) + l_d_in(l, d),
        forall|d: Seq<char>| #[trigger] d_out(s.push(l), d) == d_out(s, d) + l_d_out(l, d),
        forall|d: Seq<char>| #[trigger] d_touch(s.push(l), d) == d_touch(s, d) + l_d_touch(l, d),
        forall|b: int| #[trigger] sum_h(s.push(l), b) == sum_h(s, b) + l_h(l, b),
        first_pts(s.push(l)) == (match first_pts(s) {
            Some(p) => Some(p),
            None => line_pts(l),
        }),
        last_pts(s.push(l)) == (match line_pts(l) {
            Some(p) => Some(p),
            None => last_pts(s),
        }),
{
    assert(s.push(l).drop_last() =~= s);
    assert(s.push(l).last() == l);
}

/// A blank or unrecognized line contributes nothing anywhere.
pub proof fn lemma_blank_line(l: Seq<char>)
    requires
        !non_blank(l),
    ensures
        line_in(l) == 0,
        line_out(l) == 0,
        !dash_msg(l),
        forall|d: Seq<char>| #[trigger] l_d_msgs(l, d) == 0 && #[trigger] l_d_in(l, d) == 0
            && #[trigger] l_d_out(l, d) == 0 && #[trigger] l_d_touch(l, d) == 0,
        forall|b: int| #[trigger] l_h(l, b) == 0,
        line_pts(l) is None,
{
}

/// One appended session extends the session-level sums.
pub proof fn lemma_sess_push(ss: Seq<SessionFileV>, s: SessionFileV)
    ensures
        dur_sum(ss.push(s)) == dur_sum(ss) + sess_dur(s),
        dur_cnt(ss.push(s)) == dur_cnt(ss) + sess_dur_cnt(s),
        proj_lines(ss.push(s)) == proj_lines(ss) + session_lines(s),
{
    assert(ss.push(s).drop_last() =~= ss);
    assert(ss.push(s).last() == s);
}

/// Sums distribute over concatenated line sequences.
pub proof fn lemma_lines_concat(a: Seq<Seq<char>>, b: Seq<Seq<char>>)
    ensures
        sum_in(a + b) == sum_in(a) + sum_in(b),
        sum_out(a + b) == sum_out(a) + sum_out(b),
        sum_dash(a + b) == sum_dash(a) + sum_dash(b),
        forall|d: Seq<char>| #[trigger] d_msgs(a + b, d) == d_msgs(a, d) + d_msgs(b, d),
        forall|d: Seq<char>| #[trigger] d_in(a + b, d) == d_in(a, d) + d_in(b, d),
        forall|d: Seq<char>| #[trigger] d_out(a + b, d) == d_out(a, d) + d_out(b, d),
        forall|d: Seq<char>| #[trigger] d_touch(a + b, d) == d_touch(a, d) + d_touch(b, d),
        forall|b0: int| #[trigger] sum_h(a + b, b0) == sum_h(a, b0) + sum_h(b, b0),
    decreases b.len(),
{
    if b.len() == 0 {
        assert(a + b =~= a);
    } else {
        lemma_lines_concat(a, b.drop_last());
        assert((a + b).drop_last() =~= a + b.drop_last());
        assert((a + b).last() == b.last());
        lemma_line_push(a + b.drop_last(), b.last());
        assert(a + b =~= (a + b.drop_last()).push(b.last()));
    }
}

/// Find the daily bucket for a date.
#[verifier::loop_isolation(false)]
fn find_date_index(daily: &Vec<DailyStats>, d: &str) -> (r: Option<usize>)
    ensures
        match r {
            Some(k) => k < daily@.len() && daily.deep_view()[k as int].date == d@,
            None => forall|k: int|
                0 <= k < daily@.len() ==> daily.deep_view()[k].date != d@,
        },
{
    let n = daily.len();
    let mut i: usize = 0;
    while i < n
        invariant
            i <= n,
            forall|k: int| 0 <= k < i ==> daily.deep_view()[k].date != d@,
        decreases n - i,
    {
        if str_eq(daily[i].date.as_str(), d) {
            return Some(i);
        }
        i += 1;
    }
    None
}

/// The daily buckets describe the lines exactly: distinct dates, each
/// entry the capped sums for its date, an entry only for a touched date,
/// and an entry for every touched date. Daily session counts are never
/// accumulated and stay zero.
pub open spec fn daily_ok(lines: Seq<Seq<char>>, dv: Seq<DailyStatsV>) -> bool {
    &&& forall|k1: int, k2: int|
        0 <= k1 < k2 < dv.len() ==> dv[k1].date != dv[k2].date
    &&& forall|k: int|
        0 <= k < dv.len() ==> {
            &&& (#[trigger] dv[k]).input_tokens == cap_u64(d_in(lines, dv[k].date))
            &&& dv[k].output_tokens == cap_u64(d_out(lines, dv[k].date))
            &&& dv[k].message_count == cap_u32(d_msgs(lines, dv[k].date))
            &&& dv[k].session_count == 0
            &&& d_touch(lines, dv[k].date) > 0
        }
    &&& forall|d: Seq<char>|
        #[trigger] d_touch(lines, d) > 0 ==> exists|k: int| 0 <= k < dv.len() && dv[k].date == d
}

/// The hourly grid describes the lines exactly over the 168 hour-of-week
/// buckets.
pub open spec fn hourly_table_ok(lines: Seq<Seq<char>>, hv: Seq<u32>) -> bool {
    &&& hv.len() == 168
    &&& forall|b: int| 0 <= b < 168 ==> #[trigger] hv[b] == cap_u32(sum_h(lines, b))
}

/// The sparse hourly listing describes the lines: entries in strictly
/// ascending (day, hour) order, one for each non-empty bucket.
pub open spec fn hourly_out_ok(lines: Seq<Seq<char>>, es: Seq<HourlyActivityV>) -> bool {
    &&& forall|k: int|
        0 <= k < es.len() ==> {
            &&& (#[trigger] es[k]).hour < 24
            &&& es[k].day < 7
            &&& es[k].count == cap_u32(sum_h(lines, es[k].day * 24 + es[k].hour))
            &&& sum_h(lines, es[k].day * 24 + es[k].hour) > 0
        }
    &&& forall|k1: int, k2: int|
        0 <= k1 < k2 < es.len() ==> es[k1].day * 24 + es[k1].hour < es[k2].day * 24 + es[k2].hour
    &&& forall|b: int|
        0 <= b < 168 && #[trigger] sum_h(lines, b) > 0 ==> exists|k: int|
            0 <= k < es.len() && es[k].day * 24 + es[k].hour == b
}

pub open spec fn sorted_by_date_asc(dv: Seq<DailyStatsV>) -> bool {
    forall|i: int, j: int| 0 <= i < j < dv.len() ==> str_le(dv[i].date, dv[j].date)
}

pub open spec fn tokens_key(p: ProjectStatsV) -> int {
    p.total_input_tokens + p.total_output_tokens
}

pub open spec fn sorted_by_tokens_desc(ps: Seq<ProjectStatsV>) -> bool {
    forall|i: int, j: int| 0 <= i < j < ps.len() ==> tokens_key(ps[i]) >= tokens_key(ps[j])
}

/// A permutation of correct daily buckets is still correct.
proof fn lemma_daily_perm(lines: Seq<Seq<char>>, pre: Seq<DailyStatsV>, post: Seq<DailyStatsV>)
    requires
        pre.to_multiset() == post.to_multiset(),
        daily_ok(lines, pre),
    ensures
        daily_ok(lines, post),
{
    broadcast use vstd::seq_lib::group_to_multiset_ensures;
    broadcast use vstd::multiset::group_multiset_axioms;

    assert forall|k: int| 0 <= k < post.len() implies {
        &&& (#[trigger] post[k]).input_tokens == cap_u64(d_in(lines, post[k].date))
        &&& post[k].output_tokens == cap_u64(d_out(lines, post[k].date))
        &&& post[k].message_count == cap_u32(d_msgs(lines, post[k].date))
        &&& post[k].session_count == 0
        &&& d_touch(lines, post[k].date) > 0
    } by {
        assert(post.contains(post[k]));
        assert(pre.to_multiset().count(post[k]) > 0);
        assert(pre.contains(post[k]));
        let j = choose|j: int| 0 <= j < pre.len() && pre[j] == post[k];
        assert(pre[j] == post[k]);
    }
    assert forall|k1: int, k2: int| 0 <= k1 < k2 < post.len() implies post[k1].date
        != post[k2].date by {
        let v1 = post[k1];
        let v2 = post[k2];
        if v1 == v2 {
            assert(post.remove(k1).to_multiset() =~= post.to_multiset().remove(v1));
            assert(post.remove(k1)[k2 - 1] == v1);
            assert(post.remove(k1).contains(v1));
            assert(post.to_multiset().remove(v1).count(v1) > 0);
            assert(pre.to_multiset().count(v1) >= 2);
            assert(pre.contains(v1));
            let j1 = choose|j1: int| 0 <= j1 < pre.len() && pre[j1] == v1;
            assert(pre.remove(j1).to_multiset() =~= pre.to_multiset().remove(v1));
            assert(pre.remove(j1).to_multiset().count(v1) > 0);
            assert(pre.remove(j1).contains(v1));
            let j2 = choose|j2: int| 0 <= j2 < pre.remove(j1).len() && pre.remove(j1)[j2] == v1;
            if j2 < j1 {
                assert(pre[j2] == v1);
                assert(pre[j2].date == pre[j1].date);
            } else {
                assert(pre[j2 + 1] == v1);
                assert(pre[j1].date == pre[j2 + 1].date);
            }
        } else {
            if post[k1].date == post[k2].date {
                assert(post.contains(v1));
                assert(pre.to_multiset().count(v1) > 0);
                assert(pre.contains(v1));
                assert(post.contains(v2));
                assert(pre.to_multiset().count(v2) > 0);
                assert(pre.contains(v2));
                let j1 = choose|j1: int| 0 <= j1 < pre.len() && pre[j1] == v1;
                let j2 = choose|j2: int| 0 <= j2 < pre.len() && pre[j2] == v2;
                assert(j1 != j2);
                assert(pre[j1].date == pre[j2].date);
            }
        }
    }
    assert forall|d: Seq<char>| #[trigger] d_touch(lines, d) > 0 implies exists|k: int|
        0 <= k < post.len() && post[k].date == d by {
        let j = choose|j: int| 0 <= j < pre.len() && pre[j].date == d;
        assert(pre.contains(pre[j]));
        assert(post.to_multiset().count(pre[j]) > 0);
        assert(post.contains(pre[j]));
        let k = choose|k: int| 0 <= k < post.len() && post[k] == pre[j];
        assert(post[k].date == d);
    }
}

/// The date portion of a timestamp string.
pub fn date_prefix(ts: &str) -> (r: String)
    ensures
        r@ == date_of(ts@),
{
    match find_in(ts, "T") {
        Some(i) => {
            proof {
                crate::text::lemma_find_sub(ts@, "T"@);
                reveal_strlit("T");
                assert(ts@.subrange(0, i as int) =~= ts@.take(i as int));
            }
            String::from_str(ts.substring_char(0, i))
        },
        None => String::from_str(ts),
    }
}

/// Sort the daily buckets by date, ascending.
#[verifier::loop_isolation(false)]
fn sort_daily(input: Vec<DailyStats>) -> (r: Vec<DailyStats>)
    ensures
        r.deep_view().to_multiset() == input.deep_view().to_multiset(),
        sorted_by_date_asc(r.deep_view()),
{
    let ghost orig = input.deep_view();
    let mut v = input;
    let mut out: Vec<DailyStats> = Vec::new();
    proof {
        lemma_empty_to_multiset(out.deep_view(), v.deep_view().to_multiset());
    }
    while v.len() > 0
        invariant
            out.deep_view().to_multiset().add(v.deep_view().to_multiset()) == orig.to_multiset(),
            sorted_by_date_asc(out.deep_view()),
        decreases v.len(),
    {
        let ghost vd = v.deep_view();
        let x = v.remove(0);
        proof {
            assert(v.deep_view() =~= vd.remove(0));
            lemma_drop_first_to_multiset(vd);
        }
        let mut k: usize = 0;
        while k < out.len() && str_le_exec(out[k].date.as_str(), x.date.as_str())
            invariant
                k <= out.len(),
                forall|j: int| 0 <= j < k ==> str_le(out.deep_view()[j].date, x.deep_view().date),
            decreases out.len() - k,
        {
            k += 1;
        }
        let ghost outd = out.deep_view();
        proof {
            assert forall|j: int| k as int <= j < outd.len() implies str_le(
                x.deep_view().date,
                outd[j].date,
            ) by {
                lemma_str_le_total(outd[k as int].date, x.deep_view().date);
                if j > k as int {
                    lemma_str_le_trans(x.deep_view().date, outd[k as int].date, outd[j].date);
                }
            }
        }
        out.insert(k, x);
        proof {
            assert(out.deep_view() =~= outd.insert(k as int, x.deep_view()));
            lemma_insert_to_multiset(outd, k as int, x.deep_view());
            assert(sorted_by_date_asc(out.deep_view()));
            assert(out.deep_view().to_multiset().add(v.deep_view().to_multiset())
                =~= orig.to_multiset());
        }
    }
    proof {
        lemma_empty_to_multiset(v.deep_view(), out.deep_view().to_multiset());
    }
    out
}

/// Sort the project statistics by total tokens, descending.
#[verifier::loop_isolation(false)]
fn sort_project_stats(input: Vec<ProjectStats>) -> (r: Vec<ProjectStats>)
    ensures
        r.deep_view().to_multiset() == input.deep_view().to_multiset(),
        sorted_by_tokens_desc(r.deep_view()),
{
    let ghost orig = input.deep_view();
    let mut v = input;
    let mut out: Vec<ProjectStats> = Vec::new();
    proof {
        lemma_empty_to_multiset(out.deep_view(), v.deep_view().to_multiset());
    }
    while v.len() > 0
        invariant
            out.deep_view().to_multiset().add(v.deep_view().to_multiset()) == orig.to_multiset(),
            sorted_by_tokens_desc(out.deep_view()),
        decreases v.len(),
    {
        let ghost vd = v.deep_view();
        let x = v.remove(0);
        proof {
            assert(v.deep_view() =~= vd.remove(0));
            lemma_drop_first_to_multiset(vd);
        }
        let xkey: u128 = x.total_input_tokens as u128 + x.total_output_tokens as u128;
        let mut k: usize = 0;
        while k < out.len() && out[k].total_input_tokens as u128 + out[k].total_output_tokens
            as u128 >= xkey
            invariant
                k <= out.len(),
                xkey == tokens_key(x.deep_view()),
                forall|j: int|
                    0 <= j < k ==> tokens_key(out.deep_view()[j]) >= tokens_key(x.deep_view()),
            decreases out.len() - k,
        {
            k += 1;
        }
        let ghost outd = out.deep_view();
        proof {
            assert forall|j: int| k as int <= j < outd.len() implies tokens_key(outd[j])
                < tokens_key(x.deep_view()) by {
                if j > k as int {
                    assert(tokens_key(outd[k as int]) >= tokens_key(outd[j]));
                }
            }
        }
        out.insert(k, x);
        proof {
            assert(out.deep_view() =~= outd.insert(k as int, x.deep_view()));
            lemma_insert_to_multiset(outd, k as int, x.deep_view());
            assert(sorted_by_tokens_desc(out.deep_view()));
            assert(out.deep_view().to_multiset().add(v.deep_view().to_multiset())
                =~= orig.to_multiset());
        }
    }
    proof {
        lemma_empty_to_multiset(v.deep_view(), out.deep_view().to_multiset());
    }
    out
}

/// A capped accumulator absorbs a possibly-capped contribution.
proof fn lemma_cap_u64_add_cap(s: nat, b: nat, acc: u64)
    requires
        acc == cap_u64(s),
    ensures
        cap_u64(
            acc as nat + (if b > u64::MAX as nat {
                u64::MAX as nat
            } else {
                b
            }),
        ) == cap_u64(s + b),
{
}

/// A date's token and message sums vanish when no line touches the date.
proof fn lemma_touch_zero(lines: Seq<Seq<char>>, d: Seq<char>)
    requires
        d_touch(lines, d) == 0,
    ensures
        d_in(lines, d) == 0,
        d_out(lines, d) == 0,
        d_msgs(lines, d) == 0,
    decreases lines.len(),
{
    if lines.len() > 0 {
        lemma_touch_zero(lines.drop_last(), d);
    }
}

/// Fold one transcript line into the running aggregates.
#[verifier::loop_isolation(false)]
#[verifier::rlimit(100)]
fn scan_dash_line(
    line: &str,
    total_input_tokens: &mut u64,
    total_output_tokens: &mut u64,
    total_messages: &mut u32,
    proj_input: &mut u64,
    proj_output: &mut u64,
    daily: &mut Vec<DailyStats>,
    hourly_table: &mut Vec<u32>,
    first_ts: &mut Option<ParsedTs>,
    last_ts: &mut Option<ParsedTs>,
    Ghost(oldp): Ghost<Seq<Seq<char>>>,
    Ghost(oldpp): Ghost<Seq<Seq<char>>>,
)
    requires
        *old(total_input_tokens) == cap_u64(sum_in(oldp)),
        *old(total_output_tokens) == cap_u64(sum_out(oldp)),
        *old(total_messages) == cap_u32(sum_dash(oldp)),
        *old(proj_input) == cap_u64(sum_in(oldpp)),
        *old(proj_output) == cap_u64(sum_out(oldpp)),
        daily_ok(oldp, old(daily).deep_view()),
        hourly_table_ok(oldp, old(hourly_table)@),
    ensures
        *final(total_input_tokens) == cap_u64(sum_in(oldp.push(line@))),
        *final(total_output_tokens) == cap_u64(sum_out(oldp.push(line@))),
        *final(total_messages) == cap_u32(sum_dash(oldp.push(line@))),
        *final(proj_input) == cap_u64(sum_in(oldpp.push(line@))),
        *final(proj_output) == cap_u64(sum_out(oldpp.push(line@))),
        daily_ok(oldp.push(line@), final(daily).deep_view()),
        hourly_table_ok(oldp.push(line@), final(hourly_table)@),
        final(first_ts).deep_view() == (match old(first_ts).deep_view() {
            Some(p) => Some(p),
            None => line_pts(line@),
        }),
        final(last_ts).deep_view() == (match line_pts(line@) {
            Some(p) => Some(p),
            None => old(last_ts).deep_view(),
        }),
{
    let ghost newp = oldp.push(line@);
    let ghost newpp = oldpp.push(line@);
    proof {
        lemma_line_push(oldp, line@);
        lemma_line_push(oldpp, line@);
    }
    if str_non_blank(line) {
        let tfield = json_str_field(line, "type");
        let is_dash = match &tfield {
            Some(s) => str_eq(s.as_str(), "user") || str_eq(
                s.as_str(),
                "assistant",
            ),
            None => false,
        };
        let tsf = json_str_field(line, "timestamp");
        let usage = json_usage(line);
        if is_dash {
            proof {
                crate::sums::lemma_cap_u32_inc(sum_dash(oldp), (*total_messages));
            }
            (*total_messages) = sat_inc_u32((*total_messages));
        }
        if let Some(u) = usage {
            proof {
                crate::sums::lemma_cap_u64_add(
                    sum_in(oldp),
                    u.0 as nat,
                    (*total_input_tokens),
                );
                crate::sums::lemma_cap_u64_add(
                    sum_out(oldp),
                    u.1 as nat,
                    (*total_output_tokens),
                );
                crate::sums::lemma_cap_u64_add(
                    sum_in(oldpp),
                    u.0 as nat,
                    (*proj_input),
                );
                crate::sums::lemma_cap_u64_add(
                    sum_out(oldpp),
                    u.1 as nat,
                    (*proj_output),
                );
            }
            (*total_input_tokens) = sat_add_u64((*total_input_tokens), u.0);
            (*total_output_tokens) = sat_add_u64((*total_output_tokens), u.1);
            (*proj_input) = sat_add_u64((*proj_input), u.0);
            (*proj_output) = sat_add_u64((*proj_output), u.1);
        }
        if tsf.is_some() && (is_dash || usage.is_some()) {
            let ts = match &tsf {
                Some(t) => t.as_str(),
                None => "",
            };
            let d = date_prefix(ts);
            proof {
                assert(line_date(line@) == Some(d@));
                assert(l_d_touch(line@, d@) == 1);
            }
            let ghost predv = daily.deep_view();
            let idx: usize = match find_date_index(&daily, d.as_str()) {
                Some(k) => k,
                None => {
                    proof {
                        lemma_touch_zero(oldp, d@);
                    }
                    let zero_entry = DailyStats {
                        date: d.clone(),
                        input_tokens: 0,
                        output_tokens: 0,
                        session_count: 0,
                        message_count: 0,
                    };
                    daily.push(zero_entry);
                    proof {
                        assert(daily.deep_view() =~= predv.push(
                            DailyStatsV {
                                date: d@,
                                input_tokens: 0,
                                output_tokens: 0,
                                session_count: 0,
                                message_count: 0,
                            },
                        ));
                    }
                    daily.len() - 1
                },
            };
            proof {
                let cur = daily.deep_view();
                assert(cur[idx as int].date == d@);
                assert(forall|k1: int, k2: int|
                    0 <= k1 < k2 < cur.len() ==> cur[k1].date != cur[k2].date);
                assert(forall|k: int|
                    0 <= k < cur.len() ==> {
                        &&& (#[trigger] cur[k]).input_tokens == cap_u64(
                            d_in(oldp, cur[k].date),
                        )
                        &&& cur[k].output_tokens == cap_u64(
                            d_out(oldp, cur[k].date),
                        )
                        &&& cur[k].message_count == cap_u32(
                            d_msgs(oldp, cur[k].date),
                        )
                        &&& cur[k].session_count == 0
                    });
                assert(forall|k: int|
                    0 <= k < cur.len() && k != idx as int ==> d_touch(
                        oldp,
                        (#[trigger] cur[k]).date,
                    ) > 0);
                assert(forall|dd: Seq<char>|
                    #[trigger] d_touch(oldp, dd) > 0 ==> exists|k: int|
                        0 <= k < cur.len() && cur[k].date == dd);
            }
            let e_in = daily[idx].input_tokens;
            let e_out = daily[idx].output_tokens;
            let e_msgs = daily[idx].message_count;
            proof {
                if let Some(u) = usage {
                    crate::sums::lemma_cap_u64_add(
                        d_in(oldp, d@),
                        u.0 as nat,
                        e_in,
                    );
                    crate::sums::lemma_cap_u64_add(
                        d_out(oldp, d@),
                        u.1 as nat,
                        e_out,
                    );
                }
                crate::sums::lemma_cap_u32_inc(d_msgs(oldp, d@), e_msgs);
            }
            let new_in = match usage {
                Some(u) => sat_add_u64(e_in, u.0),
                None => e_in,
            };
            let new_out = match usage {
                Some(u) => sat_add_u64(e_out, u.1),
                None => e_out,
            };
            let new_msgs = if is_dash {
                sat_inc_u32(e_msgs)
            } else {
                e_msgs
            };
            let date_copy = daily[idx].date.clone();
            let ghost olddv = daily.deep_view();
            let newe = DailyStats {
                date: date_copy,
                input_tokens: new_in,
                output_tokens: new_out,
                session_count: 0,
                message_count: new_msgs,
            };
            let ghost ndv = newe.deep_view();
            daily.set(idx, newe);
            proof {
                let dv = daily.deep_view();
                assert(dv =~= olddv.update(idx as int, ndv));
                assert forall|k: int|
                    0 <= k < dv.len() && k != idx as int implies dv[k]
                    == olddv[k] && dv[k].date != d@ by {
                    if (idx as int) < k {
                        assert(olddv[idx as int].date != olddv[k].date);
                    } else {
                        assert(olddv[k].date != olddv[idx as int].date);
                    }
                }
                assert(dv[idx as int].date == d@);
                assert forall|k: int| 0 <= k < dv.len() && k != idx as int
                    implies l_d_msgs(line@, dv[k].date) == 0
                    && l_d_in(line@, dv[k].date) == 0 && l_d_out(
                    line@,
                    dv[k].date,
                ) == 0 && l_d_touch(line@, dv[k].date) == 0 by {}
                assert(dv[idx as int].input_tokens == cap_u64(
                    d_in(newp, d@),
                ));
                assert(dv[idx as int].output_tokens == cap_u64(
                    d_out(newp, d@),
                ));
                assert(dv[idx as int].message_count == cap_u32(
                    d_msgs(newp, d@),
                ));
                assert(d_touch(newp, d@) > 0);
                assert forall|dd: Seq<char>| #[trigger] d_touch(newp, dd)
                    > 0 implies exists|k: int|
                    0 <= k < dv.len() && dv[k].date == dd by {
                    if d_touch(oldp, dd) > 0 {
                        let k0 = choose|k0: int|
                            0 <= k0 < olddv.len() && olddv[k0].date == dd;
                        assert(dv[k0].date == dd);
                    } else {
                        assert(l_d_touch(line@, dd) > 0);
                        assert(dd == d@);
                        assert(dv[idx as int].date == dd);
                    }
                }
                assert(daily_ok(newp, dv));
            }
        } else {
            proof {
                assert forall|d: Seq<char>| #[trigger] l_d_touch(
                    line@,
                    d,
                ) == 0 && l_d_msgs(line@, d) == 0 && l_d_in(
                    line@,
                    d,
                ) == 0 && l_d_out(line@, d) == 0 by {}
                assert(daily_ok(newp, daily.deep_view()));
            }
        }
        if is_dash {
            match &tsf {
                None => {
                    proof {
                        assert(line_pts(line@) is None);
                    }
                },
                Some(t) => {
                if let Some(p) = parse_rfc3339(t.as_str()) {
                    proof {
                        assert(line_pts(line@) == Some(p.deep_view()));
                    }
                    let b: usize = (p.weekday as usize) * 24 + (
                    p.hour as usize);
                    let ghost oldhv = hourly_table@;
                    let cnt = hourly_table[b];
                    proof {
                        crate::sums::lemma_cap_u32_inc(sum_h(oldp, b as int), cnt);
                    }
                    hourly_table.set(b, sat_inc_u32(cnt));
                    proof {
                        assert forall|bb: int|
                            0 <= bb < 168 && bb != b as int implies l_h(
                            line@,
                            bb,
                        ) == 0 by {}
                        assert(hourly_table_ok(newp, hourly_table@));
                    }
                    if (*first_ts).is_none() {
                        (*first_ts) = Some(p);
                    }
                    (*last_ts) = Some(p);
                } else {
                    proof {
                        assert(line_pts(line@) is None);
                    }
                }
                },
            }
        } else {
            proof {
                assert(line_pts(line@) is None);
                assert forall|bb: int| #[trigger] l_h(line@, bb)
                    == 0 by {}
            }
        }
    } else {
        proof {
            lemma_blank_line(line@);
        }
    }
}

/// Fold the whole tree into the dashboard aggregate. The caller hands over
/// every project directory with its transcript files; an empty tree yields
/// the all-zero aggregate with empty listings.
#[verifier::loop_isolation(false)]
#[verifier::rlimit(100)]
pub fn get_dashboard_stats(tree: &Vec<ProjectDir>) -> (r: DashboardStats)
    ensures
        ({
            let tv = tree.deep_view();
            let all = tree_lines(tv);
            &&& r.total_input_tokens == cap_u64(sum_in(all))
            &&& r.total_output_tokens == cap_u64(sum_out(all))
            &&& r.total_messages == cap_u32(sum_dash(all))
            &&& r.total_sessions == cap_u32(all_sessions(tv).len())
            &&& r.session_duration_total_secs == cap_u64(dur_sum(all_sessions(tv)))
            &&& r.sessions_with_duration == cap_u32(dur_cnt(all_sessions(tv)))
            &&& r.estimated_cost_micros == cap_u64(
                3 * (cap_u64(sum_in(all)) as nat) + 15 * (cap_u64(sum_out(all)) as nat),
            )
            &&& daily_ok(all, r.daily_stats.deep_view())
            &&& sorted_by_date_asc(r.daily_stats.deep_view())
            &&& hourly_out_ok(all, r.hourly_activity.deep_view())
            &&& r.project_stats.deep_view().to_multiset() == proj_stats_of(tv).to_multiset()
            &&& sorted_by_tokens_desc(r.project_stats.deep_view())
        }),
{
    broadcast use vstd::seq_lib::group_to_multiset_ensures;

    let ghost tv = tree.deep_view();
    let mut total_input_tokens: u64 = 0;
    let mut total_output_tokens: u64 = 0;
    let mut total_messages: u32 = 0;
    let mut total_sessions: u32 = 0;
    let mut dur_total: u64 = 0;
    let mut dur_count: u32 = 0;
    let mut daily: Vec<DailyStats> = Vec::new();
    let mut hourly_table: Vec<u32> = Vec::new();
    let mut pstats: Vec<ProjectStats> = Vec::new();
    let ghost mut processed: Seq<Seq<char>> = Seq::empty();
    let ghost mut done_sess: Seq<SessionFileV> = Seq::empty();
    let mut b0: usize = 0;
    while b0 < 168
        invariant
            b0 <= 168,
            hourly_table@.len() == b0,
            forall|b: int| 0 <= b < b0 ==> #[trigger] hourly_table@[b] == 0,
        decreases 168 - b0,
    {
        hourly_table.push(0);
        b0 += 1;
    }
    let np = tree.len();
    let mut pi: usize = 0;
    proof {
        assert(tv.take(0) =~= Seq::<ProjectDirV>::empty());
    }
    while pi < np
        invariant
            pi <= np,
            processed == tree_lines(tv.take(pi as int)),
            done_sess == all_sessions(tv.take(pi as int)),
            total_input_tokens == cap_u64(sum_in(processed)),
            total_output_tokens == cap_u64(sum_out(processed)),
            total_messages == cap_u32(sum_dash(processed)),
            total_sessions == cap_u32(done_sess.len()),
            dur_total == cap_u64(dur_sum(done_sess)),
            dur_count == cap_u32(dur_cnt(done_sess)),
            daily_ok(processed, daily.deep_view()),
            hourly_table_ok(processed, hourly_table@),
            pstats.deep_view() == proj_stats_of(tv.take(pi as int)),
        decreases np - pi,
    {
        proof {
            assert(tv.take(pi + 1 as int).drop_last() =~= tv.take(pi as int));
            assert(tv.take(pi + 1 as int).last() == tv[pi as int]);
        }
        let project = &tree[pi];
        let ghost sv = project.deep_view().sessions;
        let ns = project.sessions.len();
        let mut proj_input: u64 = 0;
        let mut proj_output: u64 = 0;
        let ghost mut pproc: Seq<Seq<char>> = Seq::empty();
        let mut si: usize = 0;
        proof {
            assert(sv.take(0) =~= Seq::<SessionFileV>::empty());
            assert(pproc =~= proj_lines(sv.take(0)));
            assert(processed =~= tree_lines(tv.take(pi as int)) + pproc);
            assert(done_sess =~= all_sessions(tv.take(pi as int)) + sv.take(0));
        }
        while si < ns
            invariant
                si <= ns,
                pproc == proj_lines(sv.take(si as int)),
                processed == tree_lines(tv.take(pi as int)) + pproc,
                done_sess == all_sessions(tv.take(pi as int)) + sv.take(si as int),
                proj_input == cap_u64(sum_in(pproc)),
                proj_output == cap_u64(sum_out(pproc)),
                total_input_tokens == cap_u64(sum_in(processed)),
                total_output_tokens == cap_u64(sum_out(processed)),
                total_messages == cap_u32(sum_dash(processed)),
                total_sessions == cap_u32(done_sess.len()),
                dur_total == cap_u64(dur_sum(done_sess)),
                dur_count == cap_u32(dur_cnt(done_sess)),
                daily_ok(processed, daily.deep_view()),
                hourly_table_ok(processed, hourly_table@),
            decreases ns - si,
        {
            proof {
                assert(sv.take(si + 1 as int).drop_last() =~= sv.take(si as int));
                assert(sv.take(si + 1 as int).last() == sv[si as int]);
            }
            let session = &project.sessions[si];
            let mut first_ts: Option<ParsedTs> = None;
            let mut last_ts: Option<ParsedTs> = None;
            match &session.lines {
                Some(ls) => {
                    let ghost lv = ls.deep_view();
                    let ghost base = processed;
                    let ghost pbase = pproc;
                    let nl = ls.len();
                    let mut li: usize = 0;
                    proof {
                        assert(lv.take(0) =~= Seq::<Seq<char>>::empty());
                        assert(processed =~= base + lv.take(0));
                        assert(pproc =~= pbase + lv.take(0));
                        lemma_lines_concat(base, lv.take(0));
                        lemma_lines_concat(pbase, lv.take(0));
                    }
                    while li < nl
                        invariant
                            li <= nl,
                            processed == base + lv.take(li as int),
                            pproc == pbase + lv.take(li as int),
                            proj_input == cap_u64(sum_in(pproc)),
                            proj_output == cap_u64(sum_out(pproc)),
                            total_input_tokens == cap_u64(sum_in(processed)),
                            total_output_tokens == cap_u64(sum_out(processed)),
                            total_messages == cap_u32(sum_dash(processed)),
                            daily_ok(processed, daily.deep_view()),
                            hourly_table_ok(processed, hourly_table@),
                            first_ts.deep_view() == first_pts(lv.take(li as int)),
                            last_ts.deep_view() == last_pts(lv.take(li as int)),
                        decreases nl - li,
                    {
                        let ghost oldp = processed;
                        let ghost oldpp = pproc;
                        let line = ls[li].as_str();
                        proof {
                            assert(lv.take(li + 1 as int).drop_last() =~= lv.take(li as int));
                            assert(lv.take(li + 1 as int).last() == lv[li as int]);
                            processed = processed.push(lv[li as int]);
                            pproc = pproc.push(lv[li as int]);
                            assert(processed =~= base + lv.take(li + 1 as int));
                            assert(pproc =~= pbase + lv.take(li + 1 as int));
                            lemma_line_push(oldp, lv[li as int]);
                        }
                        scan_dash_line(
                            line,
                            &mut total_input_tokens,
                            &mut total_output_tokens,
                            &mut total_messages,
                            &mut proj_input,
                            &mut proj_output,
                            &mut daily,
                            &mut hourly_table,
                            &mut first_ts,
                            &mut last_ts,
                            Ghost(oldp),
                            Ghost(oldpp),
                        );
                        li += 1;
                    }
                    proof {
                        assert(lv.take(nl as int) =~= lv);
                        assert(session_lines(sv[si as int]) == lv);
                    }
                },
                None => {
                    proof {
                        assert(session_lines(sv[si as int]) =~= Seq::<Seq<char>>::empty());
                    }
                },
            }
            proof {
                assert(proj_lines(sv.take(si + 1 as int)) =~= proj_lines(sv.take(si as int))
                    + session_lines(sv[si as int]));
                assert(pproc =~= proj_lines(sv.take(si + 1 as int)));
                assert(first_ts.deep_view() == first_pts(session_lines(sv[si as int])));
                assert(last_ts.deep_view() == last_pts(session_lines(sv[si as int])));
                assert(done_sess.push(sv[si as int]) =~= all_sessions(tv.take(pi as int)) + sv.take(
                    si + 1 as int,
                ));
            }
            let ghost oldds = done_sess;
            proof {
                done_sess = done_sess.push(sv[si as int]);
                assert(oldds.push(sv[si as int]).drop_last() =~= oldds);
                crate::sums::lemma_cap_u32_inc(oldds.len(), total_sessions);
            }
            total_sessions = sat_inc_u32(total_sessions);
            match (&first_ts, &last_ts) {
                (Some(f), Some(l)) => {
                    let span: i128 = l.secs as i128 - f.secs as i128;
                    if span > 0 {
                        let span64: u64 = if span > u64::MAX as i128 {
                            u64::MAX
                        } else {
                            span as u64
                        };
                        proof {
                            assert(sess_dur(sv[si as int]) == span as nat);
                            assert(sess_dur_cnt(sv[si as int]) == 1);
                            lemma_cap_u64_add_cap(dur_sum(oldds), span as nat, dur_total);
                            crate::sums::lemma_cap_u32_inc(dur_cnt(oldds), dur_count);
                            assert(dur_sum(done_sess) == dur_sum(oldds) + sess_dur(sv[si as int]))
                                by {
                                assert(done_sess.drop_last() =~= oldds);
                            }
                        }
                        dur_total = sat_add_u64(dur_total, span64);
                        dur_count = sat_inc_u32(dur_count);
                    } else {
                        proof {
                            assert(sess_dur(sv[si as int]) == 0);
                            assert(sess_dur_cnt(sv[si as int]) == 0);
                            assert(done_sess.drop_last() =~= oldds);
                        }
                    }
                },
                _ => {
                    proof {
                        assert(sess_dur(sv[si as int]) == 0);
                        assert(sess_dur_cnt(sv[si as int]) == 0);
                        assert(done_sess.drop_last() =~= oldds);
                    }
                },
            }
            si += 1;
        }
        proof {
            assert(sv.take(ns as int) =~= sv);
            assert(tree_lines(tv.take(pi + 1 as int)) =~= tree_lines(tv.take(pi as int))
                + proj_lines(sv));
            assert(all_sessions(tv.take(pi + 1 as int)) =~= all_sessions(tv.take(pi as int)) + sv);
        }
        if project.sessions.len() > 0 {
            let name = project_name_from_dir(project.dir_name.as_str());
            let sc: u32 = if project.sessions.len() > u32::MAX as usize {
                u32::MAX
            } else {
                project.sessions.len() as u32
            };
            pstats.push(
                ProjectStats {
                    name,
                    path: project.path.clone(),
                    total_input_tokens: proj_input,
                    total_output_tokens: proj_output,
                    session_count: sc,
                },
            );
            proof {
                assert(proj_stats_of(tv.take(pi + 1 as int)).drop_last() =~= proj_stats_of(
                    tv.take(pi as int),
                ));
                assert(pstats.deep_view() =~= proj_stats_of(tv.take(pi + 1 as int)));
            }
        } else {
            proof {
                assert(pstats.deep_view() =~= proj_stats_of(tv.take(pi + 1 as int)));
            }
        }
        pi += 1;
    }
    proof {
        assert(tv.take(np as int) =~= tv);
    }
    let ghost pre_daily = daily.deep_view();
    let daily_sorted = sort_daily(daily);
    proof {
        lemma_daily_perm(processed, pre_daily, daily_sorted.deep_view());
    }
    let mut hourly_activity: Vec<HourlyActivity> = Vec::new();
    let mut b1: usize = 0;
    while b1 < 168
        invariant
            b1 <= 168,
            hourly_table_ok(processed, hourly_table@),
            forall|k: int|
                0 <= k < hourly_activity.deep_view().len() ==> {
                    &&& (#[trigger] hourly_activity.deep_view()[k]).hour < 24
                    &&& hourly_activity.deep_view()[k].day < 7
                    &&& hourly_activity.deep_view()[k].count == cap_u32(
                        sum_h(
                            processed,
                            hourly_activity.deep_view()[k].day * 24
                                + hourly_activity.deep_view()[k].hour,
                        ),
                    )
                    &&& sum_h(
                        processed,
                        hourly_activity.deep_view()[k].day * 24 + hourly_activity.deep_view()[k].hour,
                    ) > 0
                    &&& hourly_activity.deep_view()[k].day * 24 + hourly_activity.deep_view()[k].hour
                        < b1
                },
            forall|k1: int, k2: int|
                0 <= k1 < k2 < hourly_activity.deep_view().len()
                    ==> hourly_activity.deep_view()[k1].day * 24
                    + hourly_activity.deep_view()[k1].hour < hourly_activity.deep_view()[k2].day
                    * 24 + hourly_activity.deep_view()[k2].hour,
            forall|b: int|
                0 <= b < b1 && #[trigger] sum_h(processed, b) > 0 ==> exists|k: int|
                    0 <= k < hourly_activity.deep_view().len()
                        && hourly_activity.deep_view()[k].day * 24
                        + hourly_activity.deep_view()[k].hour == b,
        decreases 168 - b1,
    {
        let cnt = hourly_table[b1];
        if cnt > 0 {
            let e = HourlyActivity { hour: (b1 % 24) as u8, day: (b1 / 24) as u8, count: cnt };
            let ghost oldav = hourly_activity.deep_view();
            proof {
                assert(e.deep_view().day * 24 + e.deep_view().hour == b1 as int);
                assert(e.deep_view().hour < 24);
                assert(e.deep_view().day < 7);
                assert(cnt == cap_u32(sum_h(processed, b1 as int)));
                assert(sum_h(processed, b1 as int) > 0);
            }
            hourly_activity.push(e);
            proof {
                assert(hourly_activity.deep_view() =~= oldav.push(e.deep_view()));
                assert(forall|k: int|
                    0 <= k < oldav.len() ==> hourly_activity.deep_view()[k] == oldav[k]);
                assert(hourly_activity.deep_view()[oldav.len() as int] == e.deep_view());
            }
        }
        b1 += 1;
    }
    let project_stats = sort_project_stats(pstats);
    let big: u128 = 3u128 * (total_input_tokens as u128) + 15u128 * (total_output_tokens as u128);
    let estimated_cost_micros: u64 = if big > u64::MAX as u128 {
        u64::MAX
    } else {
        big as u64
    };
    DashboardStats {
        total_input_tokens,
        total_output_tokens,
        total_sessions,
        total_messages,
        daily_stats: daily_sorted,
        hourly_activity,
        project_stats,
        estimated_cost_micros,
        session_duration_total_secs: dur_total,
        sessions_with_duration: dur_count,
    }
}

} // verus!
