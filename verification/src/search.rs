//! The search engine: a case-insensitive substring scan over every
//! transcript, producing ranked, truncated results with context snippets.
//!
//! A line is searched only if its raw text contains the folded query (a
//! cheap pre-check); the flattened message text is then the authority. The
//! collected matches are ordered by timestamp descending — ISO-8601 strings
//! order correctly under plain lexicographic comparison — and capped at 100.

use vstd::prelude::*;
use vstd::string::*;
use crate::ext::{
    json_msg_str_field, json_str_field, lower_of, lowercase, msg_str_field_of, push_char,
    str_field_of,
};
use crate::message::{
    is_user_or_assistant, line_mc, spec_extract_text, extract_text_content, Content,
    MessageContent,
};
use crate::projects::project_name_of;
use crate::session::stem_of;
use crate::sums::{lemma_drop_first_to_multiset, lemma_empty_to_multiset, lemma_insert_to_multiset};
use crate::text::{
    contains_sub, contains_str, find_in, find_sub, lemma_str_le_total, lemma_str_le_trans,
    non_blank, str_le, str_le_exec, str_non_blank,
};
use crate::tree::{session_lines, ProjectDir, ProjectDirV, SessionFile, SessionFileV};
use crate::projects::project_name_from_dir;
use crate::session::file_stem;

verus! {

/// One search hit, with enough context to open it.
pub struct SearchResult {
    pub project_name: String,
    pub project_path: String,
    pub session_id: String,
    pub session_path: String,
    pub message_uuid: String,
    pub role: String,
    pub content_preview: String,
    pub timestamp: String,
}

#[verifier::ext_equal]
pub ghost struct SearchResultV {
    pub project_name: Seq<char>,
    pub project_path: Seq<char>,
    pub session_id: Seq<char>,
    pub session_path: Seq<char>,
    pub message_uuid: Seq<char>,
    pub role: Seq<char>,
    pub content_preview: Seq<char>,
    pub timestamp: Seq<char>,
}

impl DeepView for SearchResult {
    type V = SearchResultV;

    open spec fn deep_view(&self) -> SearchResultV {
        SearchResultV {
            project_name: self.project_name@,
            project_path: self.project_path@,
            session_id: self.session_id@,
            session_path: self.session_path@,
            message_uuid: self.message_uuid@,
            role: self.role@,
            content_preview: self.content_preview@,
            timestamp: self.timestamp@,
        }
    }
}

/// The flattened text of a line, as the primary message shape reads it.
pub open spec fn line_text(line: Seq<char>) -> Seq<char> {
    spec_extract_text(Some(line_mc(line)))
}

/// Whether a line matches the folded query: a non-blank line whose raw text
/// passes the pre-check, whose type is user or assistant, and whose
/// flattened text contains the query.
pub open spec fn line_match(line: Seq<char>, q: Seq<char>) -> bool {
    &&& non_blank(line)
    &&& contains_sub(lower_of(line), q)
    &&& is_user_or_assistant(line)
    &&& contains_sub(lower_of(line_text(line)), q)
}

pub open spec fn opt_or_empty(o: Option<Seq<char>>) -> Seq<char> {
    match o {
        Some(s) => s,
        None => Seq::empty(),
    }
}

/// Newlines collapsed to spaces.
pub open spec fn collapse_nl(s: Seq<char>) -> Seq<char> {
    s.map_values(|c: char| if c == '\n' { ' ' } else { c })
}

/// The preview of a text for a folded query: a window of thirty characters
/// before the first match through seventy after it, clamped to the text,
/// with ellipsis markers where the window is open and newlines collapsed;
/// without a match, the first `max_len` characters with a trailing ellipsis
/// if truncated.
pub open spec fn preview_of(text: Seq<char>, q: Seq<char>, max_len: int) -> Seq<char> {
    let tl = lower_of(text);
    match find_sub(tl, q) {
        Some(p) => {
            let start0 = if p > 30 { p - 30 } else { 0 };
            let end = if p + q.len() + 70 > text.len() { text.len() as int } else { p + q.len() + 70 };
            let start = if start0 > end { end } else { start0 };
            let w = collapse_nl(text.subrange(start, end));
            let w1 = if start > 0 { "..."@ + w } else { w };
            if end < text.len() { w1 + "..."@ } else { w1 }
        },
        None => {
            let cut = if max_len > text.len() { text.len() as int } else { max_len };
            if text.len() > max_len { text.take(cut) + "..."@ } else { text.take(cut) }
        },
    }
}

/// Collapse newlines to spaces.
#[verifier::loop_isolation(false)]
fn collapse_newlines(s: &str) -> (r: String)
    ensures
        r@ == collapse_nl(s@),
{
    let n = s.unicode_len();
    let mut out = String::new();
    let mut i: usize = 0;
    while i < n
        invariant
            i <= n,
            out@ =~= collapse_nl(s@).take(i as int),
        decreases n - i,
    {
        let c = s.get_char(i);
        if c == '\n' {
            push_char(&mut out, ' ');
        } else {
            push_char(&mut out, c);
        }
        proof {
            assert(out@ =~= collapse_nl(s@).take(i + 1 as int));
        }
        i += 1;
    }
    proof {
        assert(collapse_nl(s@).take(n as int) =~= collapse_nl(s@));
    }
    out
}

/// Build the context snippet for a match of the folded query in a text.
pub fn create_preview(text: &str, query: &str, max_len: usize) -> (r: String)
    ensures
        r@ == preview_of(text@, query@, max_len as int),
{
    let tl = lowercase(text);
    let tn = text.unicode_len();
    let qn = query.unicode_len();
    match find_in(tl.as_str(), query) {
        Some(p) => {
            let start0: usize = if p > 30 {
                p - 30
            } else {
                0
            };
            let big: u128 = p as u128 + qn as u128 + 70;
            let end: usize = if big > tn as u128 {
                tn
            } else {
                p + qn + 70
            };
            let start: usize = if start0 > end {
                end
            } else {
                start0
            };
            let window = collapse_newlines(text.substring_char(start, end));
            let mut out: String = if start > 0 {
                String::from_str("...").concat(window.as_str())
            } else {
                window
            };
            if end < tn {
                out.append("...");
            }
            proof {
                assert(text@.subrange(start as int, end as int) == text@.subrange(
                    start as int,
                    end as int,
                ));
            }
            out
        },
        None => {
            let cut: usize = if max_len > tn {
                tn
            } else {
                max_len
            };
            let prefix = String::from_str(text.substring_char(0, cut));
            proof {
                assert(text@.subrange(0, cut as int) =~= text@.take(cut as int));
            }
            if tn > max_len {
                prefix.concat("...")
            } else {
                prefix
            }
        },
    }
}

/// The search result one matching line yields.
pub open spec fn result_of(p: ProjectDirV, s: SessionFileV, line: Seq<char>, q: Seq<char>)
    -> SearchResultV {
    SearchResultV {
        project_name: project_name_of(p.dir_name),
        project_path: p.path,
        session_id: stem_of(s.name),
        session_path: s.path,
        message_uuid: opt_or_empty(str_field_of(line, "uuid"@)),
        role: opt_or_empty(msg_str_field_of(line, "role"@)),
        content_preview: preview_of(line_text(line), q, 100),
        timestamp: opt_or_empty(str_field_of(line, "timestamp"@)),
    }
}

/// The results of one session's lines, in line order.
pub open spec fn lines_results(
    p: ProjectDirV,
    s: SessionFileV,
    ls: Seq<Seq<char>>,
    q: Seq<char>,
) -> Seq<SearchResultV>
    decreases ls.len(),
{
    if ls.len() == 0 {
        Seq::empty()
    } else {
        lines_results(p, s, ls.drop_last(), q) + if line_match(ls.last(), q) {
            seq![result_of(p, s, ls.last(), q)]
        } else {
            Seq::empty()
        }
    }
}

/// The results of one project's sessions, in session and line order.
pub open spec fn project_results(p: ProjectDirV, ss: Seq<SessionFileV>, q: Seq<char>) -> Seq<
    SearchResultV,
>
    decreases ss.len(),
{
    if ss.len() == 0 {
        Seq::empty()
    } else {
        project_results(p, ss.drop_last(), q) + lines_results(
            p,
            ss.last(),
            session_lines(ss.last()),
            q,
        )
    }
}

/// Every match in the whole tree, in traversal order.
pub open spec fn tree_results(tree: Seq<ProjectDirV>, q: Seq<char>) -> Seq<SearchResultV>
    decreases tree.len(),
{
    if tree.len() == 0 {
        Seq::empty()
    } else {
        tree_results(tree.drop_last(), q) + project_results(
            tree.last(),
            tree.last().sessions,
            q,
        )
    }
}

pub open spec fn sorted_by_ts_desc(s: Seq<SearchResultV>) -> bool {
    forall|i: int, j: int| 0 <= i < j < s.len() ==> str_le(s[j].timestamp, s[i].timestamp)
}

/// Scan one line and append its result, if it matches.
fn scan_line(
    out: &mut Vec<SearchResult>,
    project: &ProjectDir,
    session: &SessionFile,
    line: &str,
    query_lower: &str,
)
    ensures
        final(out).deep_view() =~= old(out).deep_view() + if line_match(line@, query_lower@) {
            seq![result_of(project.deep_view(), session.deep_view(), line@, query_lower@)]
        } else {
            Seq::<SearchResultV>::empty()
        },
{
    if !str_non_blank(line) {
        return;
    }
    let ll = lowercase(line);
    if !contains_str(ll.as_str(), query_lower) {
        return;
    }
    let t = json_str_field(line, "type");
    let is_ua = match &t {
        Some(s) => crate::text::str_eq(s.as_str(), "user") || crate::text::str_eq(
            s.as_str(),
            "assistant",
        ),
        None => false,
    };
    if !is_ua {
        return;
    }
    let content: Option<Content> = match json_msg_str_field(line, "content") {
        Some(s) => Some(Content::Text(s)),
        None => match crate::ext::json_text_blocks(line) {
            Some(bs) => Some(Content::Blocks(bs)),
            None => None,
        },
    };
    let mc = Some(MessageContent { role: json_msg_str_field(line, "role"), content });
    let text = extract_text_content(&mc);
    proof {
        assert(mc.deep_view() =~= Some(line_mc(line@)));
        assert(text@ == line_text(line@));
    }
    let tl = lowercase(text.as_str());
    if !contains_str(tl.as_str(), query_lower) {
        return;
    }
    let preview = create_preview(text.as_str(), query_lower, 100);
    let uuid = match json_str_field(line, "uuid") {
        Some(u) => u,
        None => String::new(),
    };
    let role = match json_msg_str_field(line, "role") {
        Some(r0) => r0,
        None => String::new(),
    };
    let ts = match json_str_field(line, "timestamp") {
        Some(t0) => t0,
        None => String::new(),
    };
    out.push(
        SearchResult {
            project_name: project_name_from_dir(project.dir_name.as_str()),
            project_path: project.path.clone(),
            session_id: file_stem(session.name.as_str()),
            session_path: session.path.clone(),
            message_uuid: uuid,
            role,
            content_preview: preview,
            timestamp: ts,
        },
    );
}

/// Sort results by timestamp, newest first.
#[verifier::loop_isolation(false)]
fn sort_results(input: Vec<SearchResult>) -> (r: Vec<SearchResult>)
    ensures
        r.deep_view().to_multiset() == input.deep_view().to_multiset(),
        sorted_by_ts_desc(r.deep_view()),
{
    let ghost orig = input.deep_view();
    let mut v = input;
    let mut out: Vec<SearchResult> = Vec::new();
    proof {
        lemma_empty_to_multiset(out.deep_view(), v.deep_view().to_multiset());
    }
    while v.len() > 0
        invariant
            out.deep_view().to_multiset().add(v.deep_view().to_multiset()) == orig.to_multiset(),
            sorted_by_ts_desc(out.deep_view()),
        decreases v.len(),
    {
        let ghost vd = v.deep_view();
        let x = v.remove(0);
        proof {
            assert(v.deep_view() =~= vd.remove(0));
            lemma_drop_first_to_multiset(vd);
        }
        let mut k: usize = 0;
        while k < out.len() && str_le_exec(x.timestamp.as_str(), out[k].timestamp.as_str())
            invariant
                k <= out.len(),
                forall|j: int|
                    0 <= j < k ==> str_le(x.deep_view().timestamp, out.deep_view()[j].timestamp),
            decreases out.len() - k,
        {
            k += 1;
        }
        let ghost outd = out.deep_view();
        proof {
            assert forall|j: int| k as int <= j < outd.len() implies str_le(
                outd[j].timestamp,
                x.deep_view().timestamp,
            ) by {
                lemma_str_le_total(x.deep_view().timestamp, outd[k as int].timestamp);
                if j > k as int {
                    lemma_str_le_trans(outd[j].timestamp, outd[k as int].timestamp,
                        x.deep_view().timestamp);
                }
            }
        }
        out.insert(k, x);
        proof {
            assert(out.deep_view() =~= outd.insert(k as int, x.deep_view()));
            lemma_insert_to_multiset(outd, k as int, x.deep_view());
            assert(sorted_by_ts_desc(out.deep_view()));
            assert(out.deep_view().to_multiset().add(v.deep_view().to_multiset())
                =~= orig.to_multiset());
        }
    }
    proof {
        lemma_empty_to_multiset(v.deep_view(), out.deep_view().to_multiset());
    }
    out
}

/// Search every transcript for the query, case-insensitively: the hundred
/// most recent matches, newest first. Every element of the result is a
/// match, and every match left out is no newer than any returned one.
#[verifier::loop_isolation(false)]
pub fn search_messages(query: &str, tree: &Vec<ProjectDir>) -> (r: Vec<SearchResult>)
    ensures
        ({
            let all = tree_results(tree.deep_view(), lower_of(query@));
            let rd = r.deep_view();
            &&& rd.len() == vstd::math::min(100, all.len() as int)
            &&& sorted_by_ts_desc(rd)
            &&& rd.to_multiset().subset_of(all.to_multiset())
            &&& forall|x: SearchResultV, i: int|
                #![trigger all.to_multiset().sub(rd.to_multiset()).count(x), rd[i]]
                all.to_multiset().sub(rd.to_multiset()).count(x) > 0 && 0 <= i < rd.len()
                    ==> str_le(x.timestamp, rd[i].timestamp)
        }),
{
    broadcast use vstd::seq_lib::group_to_multiset_ensures;
    broadcast use vstd::multiset::group_multiset_axioms;

    let ghost tv = tree.deep_view();
    let query_lower = lowercase(query);
    let ghost q = lower_of(query@);
    let mut found: Vec<SearchResult> = Vec::new();
    let np = tree.len();
    let mut pi: usize = 0;
    proof {
        assert(tv.take(0) =~= Seq::<ProjectDirV>::empty());
    }
    while pi < np
        invariant
            pi <= np,
            found.deep_view() == tree_results(tv.take(pi as int), q),
        decreases np - pi,
    {
        proof {
            assert(tv.take(pi + 1 as int).drop_last() =~= tv.take(pi as int));
            assert(tv.take(pi + 1 as int).last() == tv[pi as int]);
        }
        let project = &tree[pi];
        let ghost sv = project.deep_view().sessions;
        let ns = project.sessions.len();
        let mut si: usize = 0;
        proof {
            assert(sv.take(0) =~= Seq::<SessionFileV>::empty());
            assert(found.deep_view() =~= tree_results(tv.take(pi as int), q) + project_results(
                project.deep_view(),
                sv.take(0),
                q,
            ));
        }
        while si < ns
            invariant
                si <= ns,
                found.deep_view() == tree_results(tv.take(pi as int), q) + project_results(
                    project.deep_view(),
                    sv.take(si as int),
                    q,
                ),
            decreases ns - si,
        {
            proof {
                assert(sv.take(si + 1 as int).drop_last() =~= sv.take(si as int));
                assert(sv.take(si + 1 as int).last() == sv[si as int]);
            }
            let session = &project.sessions[si];
            match &session.lines {
                Some(ls) => {
                    let ghost lv = ls.deep_view();
                    let nl = ls.len();
                    let mut li: usize = 0;
                    proof {
                        assert(lv.take(0) =~= Seq::<Seq<char>>::empty());
                        assert(found.deep_view() =~= tree_results(tv.take(pi as int), q)
                            + project_results(project.deep_view(), sv.take(si as int), q)
                            + lines_results(
                            project.deep_view(),
                            session.deep_view(),
                            lv.take(0),
                            q,
                        ));
                    }
                    while li < nl
                        invariant
                            li <= nl,
                            found.deep_view() == tree_results(tv.take(pi as int), q)
                                + project_results(project.deep_view(), sv.take(si as int), q)
                                + lines_results(
                                project.deep_view(),
                                session.deep_view(),
                                lv.take(li as int),
                                q,
                            ),
                        decreases nl - li,
                    {
                        proof {
                            assert(lv.take(li + 1 as int).drop_last() =~= lv.take(li as int));
                            assert(lv.take(li + 1 as int).last() == lv[li as int]);
                        }
                        scan_line(&mut found, project, session, ls[li].as_str(), query_lower.as_str());
                        assert(found.deep_view() =~= tree_results(tv.take(pi as int), q)
                            + project_results(project.deep_view(), sv.take(si as int), q)
                            + lines_results(
                            project.deep_view(),
                            session.deep_view(),
                            lv.take(li + 1 as int),
                            q,
                        ));
                        li += 1;
                    }
                    proof {
                        assert(lv.take(nl as int) =~= lv);
                        assert(session_lines(sv[si as int]) == lv);
                    }
                },
                None => {
                    proof {
                        assert(session_lines(sv[si as int]) =~= Seq::<Seq<char>>::empty());
                    }
                },
            }
            assert(found.deep_view() =~= tree_results(tv.take(pi as int), q) + project_results(
                project.deep_view(),
                sv.take(si + 1 as int),
                q,
            ));
            si += 1;
        }
        proof {
            assert(sv.take(ns as int) =~= sv);
        }
        assert(found.deep_view() =~= tree_results(tv.take(pi + 1 as int), q));
        pi += 1;
    }
    proof {
        assert(tv.take(np as int) =~= tv);
    }
    let ghost all = tree_results(tv, q);
    let mut sorted = sort_results(found);
    let ghost full = sorted.deep_view();
    if sorted.len() > 100 {
        sorted.truncate(100);
        proof {
            assert(sorted.deep_view() =~= full.take(100));
        }
    } else {
        proof {
            assert(sorted.deep_view() =~= full.take(full.len() as int));
        }
    }
    proof {
        let rd = sorted.deep_view();
        let m = rd.len() as int;
        let rest = full.skip(m);
        assert(full.to_multiset() == all.to_multiset());
        assert(full.len() == all.len()) by {
            full.to_multiset_ensures();
            all.to_multiset_ensures();
        }
        assert(rd.len() == vstd::math::min(100, all.len() as int));
        assert(sorted_by_ts_desc(rd)) by {
            assert forall|i: int, j: int| 0 <= i < j < rd.len() implies str_le(
                rd[j].timestamp,
                rd[i].timestamp,
            ) by {
                assert(rd[i] == full[i]);
                assert(rd[j] == full[j]);
            }
        }
        assert(full =~= rd + rest);
        vstd::seq_lib::lemma_multiset_commutative(rd, rest);
        assert(all.to_multiset() =~= rd.to_multiset().add(rest.to_multiset()));
        assert forall|x: SearchResultV, i: int|
            all.to_multiset().sub(rd.to_multiset()).count(x) > 0 && 0 <= i < rd.len() implies str_le(
            x.timestamp,
            rd[i].timestamp,
        ) by {
            assert(all.to_multiset().sub(rd.to_multiset()) =~= rest.to_multiset());
            assert(rest.to_multiset().count(x) > 0);
            assert(rest.contains(x));
            let j = choose|j: int| 0 <= j < rest.len() && rest[j] == x;
            assert(full[m + j] == x);
            assert(str_le(full[m + j].timestamp, full[i].timestamp));
        }
        assert(rd.to_multiset().subset_of(all.to_multiset()));
    }
    sorted
}

} // verus!
