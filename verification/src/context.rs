//! The context correlator: file-mutation events from one session, the
//! session's time window, and the parsing of version-control history.
//!
//! The version-control subsystem itself is an outside collaborator: the
//! caller asks it for history inside the window this module computes and
//! hands the resulting text back to `parse_git_log`. A session without
//! timestamps has no window, so the collaborator is never consulted for it.

use vstd::prelude::*;
use vstd::string::*;
use crate::ext::{json_str_field, json_tool_blocks, str_field_of, tool_blocks_of, ToolBlockV};
use crate::text::{
    find_in, find_sub, lemma_find_sub, non_blank, str_eq, str_le, str_non_blank, trim_str,
    trimmed,
};

verus! {

/// One file-mutation event: a recognized tool invocation found in a session.
pub struct FileChange {
    pub file_path: String,
    pub action: String,
    pub timestamp: String,
}

#[verifier::ext_equal]
pub ghost struct FileChangeV {
    pub file_path: Seq<char>,
    pub action: Seq<char>,
    pub timestamp: Seq<char>,
}

impl DeepView for FileChange {
    type V = FileChangeV;

    open spec fn deep_view(&self) -> FileChangeV {
        FileChangeV {
            file_path: self.file_path@,
            action: self.action@,
            timestamp: self.timestamp@,
        }
    }
}

/// One commit as relayed from the version-control subsystem.
pub struct GitCommit {
    pub hash: String,
    pub message: String,
    pub timestamp: String,
    pub files: Vec<String>,
}

#[verifier::ext_equal]
pub ghost struct GitCommitV {
    pub hash: Seq<char>,
    pub message: Seq<char>,
    pub timestamp: Seq<char>,
    pub files: Seq<Seq<char>>,
}

impl DeepView for GitCommit {
    type V = GitCommitV;

    open spec fn deep_view(&self) -> GitCommitV {
        GitCommitV {
            hash: self.hash@,
            message: self.message@,
            timestamp: self.timestamp@,
            files: self.files.deep_view(),
        }
    }
}

/// The context of one session: its file changes and the correlated commits.
pub struct SessionContext {
    pub file_changes: Vec<FileChange>,
    pub git_commits: Vec<GitCommit>,
    pub project_path: String,
}

/// The file path a content block contributes: only `tool_use` blocks of the
/// recognized tools, each read through its tool's input field.
pub open spec fn block_path(b: ToolBlockV) -> Option<Seq<char>> {
    if b.kind == "tool_use"@ {
        if b.name == "Edit"@ || b.name == "Write"@ {
            b.file_path
        } else if b.name == "mcp_edit"@ || b.name == "mcp_write"@ {
            b.file_path_alt
        } else {
            None
        }
    } else {
        None
    }
}

/// The raw timestamp string of a line, empty when absent.
pub open spec fn ts_str(line: Seq<char>) -> Seq<char> {
    match str_field_of(line, "timestamp"@) {
        Some(t) => t,
        None => Seq::empty(),
    }
}

/// The file changes one line's blocks yield, in block order.
pub open spec fn changes_of_blocks(bs: Seq<ToolBlockV>, ts: Seq<char>) -> Seq<FileChangeV>
    decreases bs.len(),
{
    if bs.len() == 0 {
        Seq::empty()
    } else {
        changes_of_blocks(bs.drop_last(), ts) + match block_path(bs.last()) {
            Some(p) => seq![
                FileChangeV { file_path: p, action: bs.last().name, timestamp: ts },
            ],
            None => Seq::empty(),
        }
    }
}

/// The file changes one line yields.
pub open spec fn line_changes(line: Seq<char>) -> Seq<FileChangeV> {
    if !non_blank(line) {
        Seq::empty()
    } else {
        match tool_blocks_of(line) {
            Some(bs) => changes_of_blocks(bs, ts_str(line)),
            None => Seq::empty(),
        }
    }
}

/// The file changes of a whole session, in line and block order.
pub open spec fn changes_of(lines: Seq<Seq<char>>) -> Seq<FileChangeV>
    decreases lines.len(),
{
    if lines.len() == 0 {
        Seq::empty()
    } else {
        changes_of(lines.drop_last()) + line_changes(lines.last())
    }
}

/// The timestamp a line contributes to the session's span: a non-blank
/// line's non-empty `timestamp` string.
pub open spec fn line_ts(line: Seq<char>) -> Option<Seq<char>> {
    if non_blank(line) && ts_str(line).len() > 0 {
        Some(ts_str(line))
    } else {
        None
    }
}

/// Every timestamp of the session, in line order.
pub open spec fn timestamps_of(lines: Seq<Seq<char>>) -> Seq<Seq<char>>
    decreases lines.len(),
{
    if lines.len() == 0 {
        Seq::empty()
    } else {
        timestamps_of(lines.drop_last()) + match line_ts(lines.last()) {
            Some(t) => seq![t],
            None => Seq::empty(),
        }
    }
}

/// The smallest of the strings, in lexicographic order.
pub open spec fn min_ts(ts: Seq<Seq<char>>) -> Seq<char>
    recommends
        ts.len() > 0,
    decreases ts.len(),
{
    if ts.len() <= 1 {
        ts[0]
    } else {
        let m = min_ts(ts.drop_last());
        if str_le(m, ts.last()) {
            m
        } else {
            ts.last()
        }
    }
}

/// The largest of the strings, in lexicographic order.
pub open spec fn max_ts(ts: Seq<Seq<char>>) -> Seq<char>
    recommends
        ts.len() > 0,
    decreases ts.len(),
{
    if ts.len() <= 1 {
        ts[0]
    } else {
        let m = max_ts(ts.drop_last());
        if str_le(m, ts.last()) {
            ts.last()
        } else {
            m
        }
    }
}

/// The session's inclusive time window: the least and greatest timestamp,
/// or nothing when the session has none — in that case the version-control
/// collaborator is not consulted at all.
pub fn context_window(lines: &Vec<String>) -> (r: Option<(String, String)>)
    ensures
        match r {
            None => timestamps_of(lines.deep_view()).len() == 0,
            Some(w) => {
                &&& timestamps_of(lines.deep_view()).len() > 0
                &&& w.0@ == min_ts(timestamps_of(lines.deep_view()))
                &&& w.1@ == max_ts(timestamps_of(lines.deep_view()))
            },
        },
{
    let ts = session_timestamps(lines);
    let ghost tv = timestamps_of(lines.deep_view());
    if ts.len() == 0 {
        return None;
    }
    let mut lo: String = ts[0].clone();
    let mut hi: String = ts[0].clone();
    let n = ts.len();
    let mut i: usize = 1;
    proof {
        assert(tv.take(1)[0] == tv[0]);
        assert(min_ts(tv.take(1)) == tv[0]);
        assert(max_ts(tv.take(1)) == tv[0]);
    }
    while i < n
        invariant
            1 <= i <= n,
            n == tv.len(),
            ts.deep_view() == tv,
            lo@ == min_ts(tv.take(i as int)),
            hi@ == max_ts(tv.take(i as int)),
        decreases n - i,
    {
        proof {
            assert(tv.take(i + 1 as int).drop_last() =~= tv.take(i as int));
            assert(tv.take(i + 1 as int).last() == tv[i as int]);
        }
        let t = &ts[i];
        if !crate::text::str_le_exec(lo.as_str(), t.as_str()) {
            lo = t.clone();
        }
        if crate::text::str_le_exec(hi.as_str(), t.as_str()) {
            hi = t.clone();
        }
        i += 1;
    }
    proof {
        assert(tv.take(n as int) =~= tv);
    }
    Some((lo, hi))
}

/// Collect every timestamp of the session, in line order.
#[verifier::loop_isolation(false)]
pub fn session_timestamps(lines: &Vec<String>) -> (r: Vec<String>)
    ensures
        r.deep_view() == timestamps_of(lines.deep_view()),
{
    let ghost lv = lines.deep_view();
    let n = lines.len();
    let mut out: Vec<String> = Vec::new();
    let mut i: usize = 0;
    proof {
        assert(lv.take(0) =~= Seq::<Seq<char>>::empty());
    }
    while i < n
        invariant
            i <= n,
            out.deep_view() == timestamps_of(lv.take(i as int)),
        decreases n - i,
    {
        proof {
            assert(lv.take(i + 1 as int).drop_last() =~= lv.take(i as int));
            assert(lv.take(i + 1 as int).last() == lv[i as int]);
        }
        let line = lines[i].as_str();
        if str_non_blank(line) {
            if let Some(t) = json_str_field(line, "timestamp") {
                if t.unicode_len() > 0 {
                    out.push(t);
                }
            }
        }
        assert(out.deep_view() =~= timestamps_of(lv.take(i + 1 as int)));
        i += 1;
    }
    proof {
        assert(lv.take(n as int) =~= lv);
    }
    out
}

/// Collect the session's file changes, in line and block order.
#[verifier::loop_isolation(false)]
pub fn session_file_changes(lines: &Vec<String>) -> (r: Vec<FileChange>)
    ensures
        r.deep_view() == changes_of(lines.deep_view()),
{
    let ghost lv = lines.deep_view();
    let n = lines.len();
    let mut out: Vec<FileChange> = Vec::new();
    let mut i: usize = 0;
    proof {
        assert(lv.take(0) =~= Seq::<Seq<char>>::empty());
    }
    while i < n
        invariant
            i <= n,
            out.deep_view() == changes_of(lv.take(i as int)),
        decreases n - i,
    {
        proof {
            assert(lv.take(i + 1 as int).drop_last() =~= lv.take(i as int));
            assert(lv.take(i + 1 as int).last() == lv[i as int]);
        }
        let line = lines[i].as_str();
        if str_non_blank(line) {
            if let Some(bs) = json_tool_blocks(line) {
                let ts = match json_str_field(line, "timestamp") {
                    Some(t) => t,
                    None => String::new(),
                };
                let ghost bv = bs.deep_view();
                let m = bs.len();
                let mut k: usize = 0;
                proof {
                    assert(bv.take(0) =~= Seq::<ToolBlockV>::empty());
                    assert(out.deep_view() =~= changes_of(lv.take(i as int)) + changes_of_blocks(
                        bv.take(0),
                        ts@,
                    ));
                }
                while k < m
                    invariant
                        k <= m,
                        out.deep_view() == changes_of(lv.take(i as int)) + changes_of_blocks(
                            bv.take(k as int),
                            ts@,
                        ),
                    decreases m - k,
                {
                    proof {
                        assert(bv.take(k + 1 as int).drop_last() =~= bv.take(k as int));
                        assert(bv.take(k + 1 as int).last() == bv[k as int]);
                    }
                    let b = &bs[k];
                    if str_eq(b.kind.as_str(), "tool_use") {
                        let use_direct = str_eq(b.name.as_str(), "Edit") || str_eq(
                            b.name.as_str(),
                            "Write",
                        );
                        let use_alt = str_eq(b.name.as_str(), "mcp_edit") || str_eq(
                            b.name.as_str(),
                            "mcp_write",
                        );
                        let path: Option<&String> = if use_direct {
                            b.file_path.as_ref()
                        } else if use_alt {
                            b.file_path_alt.as_ref()
                        } else {
                            None
                        };
                        if let Some(p) = path {
                            proof {
                                assert(block_path(bv[k as int]) matches Some(q) && q == p@);
                            }
                            let fc = FileChange {
                                file_path: p.clone(),
                                action: b.name.clone(),
                                timestamp: ts.clone(),
                            };
                            proof {
                                assert(fc.deep_view() =~~= FileChangeV {
                                    file_path: block_path(bv[k as int])->Some_0,
                                    action: bv[k as int].name,
                                    timestamp: ts@,
                                });
                            }
                            out.push(fc);
                            proof {
                                assert(out.deep_view() =~~= changes_of(lv.take(i as int))
                                    + changes_of_blocks(bv.take(k as int), ts@) + seq![
                                    FileChangeV {
                                        file_path: block_path(bv[k as int])->Some_0,
                                        action: bv[k as int].name,
                                        timestamp: ts@,
                                    },
                                ]);
                            }
                        } else {
                            proof {
                                assert(block_path(bv[k as int]) is None);
                            }
                        }
                    }
                    proof {
                        assert(changes_of_blocks(bv.take(k + 1 as int), ts@)
                            =~~= changes_of_blocks(bv.take(k as int), ts@) + match block_path(
                            bv[k as int],
                        ) {
                            Some(q) => seq![
                                FileChangeV {
                                    file_path: q,
                                    action: bv[k as int].name,
                                    timestamp: ts@,
                                },
                            ],
                            None => Seq::empty(),
                        });
                        assert(out.deep_view() =~~= changes_of(lv.take(i as int))
                            + changes_of_blocks(bv.take(k + 1 as int), ts@));
                    }
                    k += 1;
                }
                proof {
                    assert(bv.take(m as int) =~= bv);
                }
            }
        }
        assert(out.deep_view() =~= changes_of(lv.take(i + 1 as int)));
        i += 1;
    }
    proof {
        assert(lv.take(n as int) =~= lv);
    }
    out
}

/// The running state of the commit-log parser: finished commits, and the
/// commit whose file list is still being read.
#[verifier::ext_equal]
pub ghost struct GitStateV {
    pub done: Seq<GitCommitV>,
    pub cur: Option<GitCommitV>,
}

pub open spec fn flush(st: GitStateV) -> Seq<GitCommitV> {
    st.done + match st.cur {
        Some(c) => seq![c],
        None => Seq::empty(),
    }
}

/// One line advances the parser: a line with `|` flushes the current commit
/// and starts a new one from `hash|subject|timestamp` (a header without two
/// separators starts none); any other non-blank line is a file path of the
/// current commit.
pub open spec fn git_step(st: GitStateV, line: Seq<char>) -> GitStateV {
    match find_sub(line, "|"@) {
        Some(i1) => {
            let rest = line.skip(i1 + 1);
            match find_sub(rest, "|"@) {
                Some(i2) => GitStateV {
                    done: flush(st),
                    cur: Some(
                        GitCommitV {
                            hash: line.take(i1),
                            message: rest.take(i2),
                            timestamp: rest.skip(i2 + 1),
                            files: Seq::empty(),
                        },
                    ),
                },
                None => GitStateV { done: flush(st), cur: None },
            }
        },
        None => {
            if non_blank(line) {
                match st.cur {
                    Some(c) => GitStateV {
                        done: st.done,
                        cur: Some(
                            GitCommitV {
                                hash: c.hash,
                                message: c.message,
                                timestamp: c.timestamp,
                                files: c.files.push(trimmed(line)),
                            },
                        ),
                    },
                    None => st,
                }
            } else {
                st
            }
        },
    }
}

pub open spec fn git_fold(lines: Seq<Seq<char>>) -> GitStateV
    decreases lines.len(),
{
    if lines.len() == 0 {
        GitStateV { done: Seq::empty(), cur: None }
    } else {
        git_step(git_fold(lines.drop_last()), lines.last())
    }
}

/// The commits the collaborator's output lines describe.
pub open spec fn commits_of(lines: Seq<Seq<char>>) -> Seq<GitCommitV> {
    flush(git_fold(lines))
}

/// Parse the version-control collaborator's output: one block per commit, a
/// `hash|subject|timestamp` header followed by the commit's file paths.
#[verifier::loop_isolation(false)]
pub fn parse_git_log(lines: &Vec<String>) -> (r: Vec<GitCommit>)
    ensures
        r.deep_view() == commits_of(lines.deep_view()),
{
    let ghost lv = lines.deep_view();
    let n = lines.len();
    let mut done: Vec<GitCommit> = Vec::new();
    let mut cur: Option<GitCommit> = None;
    let mut i: usize = 0;
    proof {
        assert(lv.take(0) =~= Seq::<Seq<char>>::empty());
    }
    while i < n
        invariant
            i <= n,
            done.deep_view() == git_fold(lv.take(i as int)).done,
            cur.deep_view() == git_fold(lv.take(i as int)).cur,
        decreases n - i,
    {
        proof {
            assert(lv.take(i + 1 as int).drop_last() =~= lv.take(i as int));
            assert(lv.take(i + 1 as int).last() == lv[i as int]);
        }
        let line = lines[i].as_str();
        let ln = line.unicode_len();
        match find_in(line, "|") {
            Some(i1) => {
                match cur {
                    Some(c) => {
                        done.push(c);
                    },
                    None => {},
                }
                proof {
                    assert(done.deep_view() =~= flush(git_fold(lv.take(i as int))));
                    lemma_find_sub(line@, "|"@);
                    reveal_strlit("|");
                    assert(("|")@.len() == 1);
                }
                let rest = line.substring_char(i1 + 1, ln);
                let restlen = ln - (i1 + 1);
                proof {
                    assert(rest@ =~= line@.skip(i1 + 1));
                    lemma_find_sub(rest@, "|"@);
                }
                match find_in(rest, "|") {
                    Some(i2) => {
                        cur = Some(
                            GitCommit {
                                hash: String::from_str(line.substring_char(0, i1)),
                                message: String::from_str(rest.substring_char(0, i2)),
                                timestamp: String::from_str(rest.substring_char(i2 + 1, restlen)),
                                files: Vec::new(),
                            },
                        );
                        proof {
                            assert(line@.take(i1 as int) =~= line@.subrange(0, i1 as int));
                            assert(rest@.take(i2 as int) =~= rest@.subrange(0, i2 as int));
                            assert(rest@.skip(i2 + 1) =~= rest@.subrange(
                                i2 + 1 as int,
                                restlen as int,
                            ));
                        }
                    },
                    None => {
                        cur = None;
                    },
                }
            },
            None => {
                proof {
                    lemma_find_sub(line@, "|"@);
                }
                if str_non_blank(line) {
                    let trimmed_line = trim_str(line);
                    cur = match cur {
                        Some(mut c) => {
                            c.files.push(trimmed_line);
                            Some(c)
                        },
                        None => None,
                    };
                }
            },
        }
        assert(done.deep_view() =~= git_fold(lv.take(i + 1 as int)).done);
        assert(cur.deep_view() =~= git_fold(lv.take(i + 1 as int)).cur);
        i += 1;
    }
    proof {
        assert(lv.take(n as int) =~= lv);
    }
    match cur {
        Some(c) => {
            done.push(c);
        },
        None => {},
    }
    proof {
        assert(done.deep_view() =~= commits_of(lv));
    }
    done
}

/// The context of one session: its file changes, and the commits the
/// caller's version-control query returned for the session's window (`None`
/// when the query was not made or failed, which degrades to no commits).
pub fn get_session_context(
    lines: &Vec<String>,
    project_name: &str,
    git_lines: &Option<Vec<String>>,
) -> (r: SessionContext)
    ensures
        r.file_changes.deep_view() == changes_of(lines.deep_view()),
        r.git_commits.deep_view() == match git_lines {
            Some(g) => commits_of(g.deep_view()),
            None => Seq::<GitCommitV>::empty(),
        },
        r.project_path@ == "/"@ + project_name@,
{
    let file_changes = session_file_changes(lines);
    let git_commits = match git_lines {
        Some(g) => parse_git_log(g),
        None => Vec::new(),
    };
    let project_path = String::from_str("/").concat(project_name);
    proof {
        assert(git_commits.deep_view() =~= match git_lines {
            Some(g) => commits_of(g.deep_view()),
            None => Seq::<GitCommitV>::empty(),
        });
    }
    SessionContext { file_changes, git_commits, project_path }
}

} // verus!
