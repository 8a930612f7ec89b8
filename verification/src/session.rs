//! The session scanner: per-transcript aggregates and session listings.

use vstd::prelude::*;
use vstd::string::*;
use crate::message::parse_line_message;
use crate::sums::{
    cap_u32, cap_u64, lemma_cap_u32_inc, lemma_cap_u64_add, lemma_drop_first_to_multiset,
    lemma_empty_to_multiset, lemma_insert_to_multiset, lemma_sums_take, sat_add_u64, sat_inc_u32,
    sum_in, sum_msgs, sum_out,
};
use crate::ext::json_usage;
use crate::text::{str_eq, str_non_blank};

verus! {

/// One listed session: a transcript file with its aggregates.
pub struct Session {
    pub id: String,
    pub path: String,
    pub size: u64,
    pub modified: u64,
    pub input_tokens: u64,
    pub output_tokens: u64,
}

#[verifier::ext_equal]
pub ghost struct SessionV {
    pub id: Seq<char>,
    pub path: Seq<char>,
    pub size: u64,
    pub modified: u64,
    pub input_tokens: u64,
    pub output_tokens: u64,
}

impl DeepView for Session {
    type V = SessionV;

    open spec fn deep_view(&self) -> SessionV {
        SessionV {
            id: self.id@,
            path: self.path@,
            size: self.size,
            modified: self.modified,
            input_tokens: self.input_tokens,
            output_tokens: self.output_tokens,
        }
    }
}

/// One transcript file as read from disk: its name, location, metadata and
/// content lines. The caller lists a project directory's `.jsonl` files and
/// hands each over in this shape.
pub struct SessionSource {
    pub name: String,
    pub path: String,
    pub size: u64,
    pub modified: u64,
    pub lines: Vec<String>,
}

#[verifier::ext_equal]
pub ghost struct SessionSourceV {
    pub name: Seq<char>,
    pub path: Seq<char>,
    pub size: u64,
    pub modified: u64,
    pub lines: Seq<Seq<char>>,
}

impl DeepView for SessionSource {
    type V = SessionSourceV;

    open spec fn deep_view(&self) -> SessionSourceV {
        SessionSourceV {
            name: self.name@,
            path: self.path@,
            size: self.size,
            modified: self.modified,
            lines: self.lines.deep_view(),
        }
    }
}

/// The file-name stem: the name with a trailing `.jsonl` removed.
pub open spec fn stem_of(name: Seq<char>) -> Seq<char> {
    if name.len() >= 6 && name.subrange(name.len() - 6, name.len() as int) == ".jsonl"@ {
        name.subrange(0, name.len() - 6)
    } else {
        name
    }
}

/// Strip a trailing `.jsonl` from a file name.
pub fn file_stem(name: &str) -> (r: String)
    ensures
        r@ == stem_of(name@),
{
    let n = name.unicode_len();
    if n >= 6 {
        let suffix = name.substring_char(n - 6, n);
        if str_eq(suffix, ".jsonl") {
            return String::from_str(name.substring_char(0, n - 6));
        }
    }
    String::from_str(name)
}

/// The aggregates of one transcript's lines: capped sums of input tokens,
/// output tokens, and displayable-message count.
pub fn calculate_session_stats(lines: &Vec<String>) -> (r: (u64, u64, u32))
    ensures
        r.0 == cap_u64(sum_in(lines.deep_view())),
        r.1 == cap_u64(sum_out(lines.deep_view())),
        r.2 == cap_u32(sum_msgs(lines.deep_view())),
{
    let ghost lv = lines.deep_view();
    let n = lines.len();
    let mut input_tokens: u64 = 0;
    let mut output_tokens: u64 = 0;
    let mut message_count: u32 = 0;
    let mut i: usize = 0;
    proof {
        assert(lv.take(0) =~= Seq::<Seq<char>>::empty());
    }
    while i < n
        invariant
            i <= n,
            n == lv.len(),
            lv == lines.deep_view(),
            input_tokens == cap_u64(sum_in(lv.take(i as int))),
            output_tokens == cap_u64(sum_out(lv.take(i as int))),
            message_count == cap_u32(sum_msgs(lv.take(i as int))),
        decreases n - i,
    {
        proof {
            lemma_sums_take(lv, i as int);
        }
        let line = lines[i].as_str();
        if str_non_blank(line) {
            if let Some(u) = json_usage(line) {
                proof {
                    lemma_cap_u64_add(sum_in(lv.take(i as int)), u.0 as nat, input_tokens);
                    lemma_cap_u64_add(
                        sum_out(lv.take(i as int)),
                        u.1 as nat,
                        output_tokens,
                    );
                }
                input_tokens = sat_add_u64(input_tokens, u.0);
                output_tokens = sat_add_u64(output_tokens, u.1);
            }
        }
        if parse_line_message(line).is_some() {
            proof {
                lemma_cap_u32_inc(sum_msgs(lv.take(i as int)), message_count);
            }
            message_count = sat_inc_u32(message_count);
        }
        i += 1;
    }
    proof {
        assert(lv.take(n as int) =~= lv);
    }
    (input_tokens, output_tokens, message_count)
}

/// The session a source file yields, kept only when it has at least one
/// displayable message.
pub open spec fn session_of_source(s: SessionSourceV) -> SessionV {
    SessionV {
        id: stem_of(s.name),
        path: s.path,
        size: s.size,
        modified: s.modified,
        input_tokens: cap_u64(sum_in(s.lines)),
        output_tokens: cap_u64(sum_out(s.lines)),
    }
}

pub open spec fn source_kept(s: SessionSourceV) -> bool {
    sum_msgs(s.lines) > 0
}

/// The sessions a directory's source files yield, in file order, before
/// sorting: sessions without a displayable message are excluded.
pub open spec fn sessions_of(ss: Seq<SessionSourceV>) -> Seq<SessionV>
    decreases ss.len(),
{
    if ss.len() == 0 {
        Seq::empty()
    } else {
        sessions_of(ss.drop_last()) + if source_kept(ss.last()) {
            seq![session_of_source(ss.last())]
        } else {
            Seq::empty()
        }
    }
}

pub open spec fn sorted_by_modified_desc(s: Seq<SessionV>) -> bool {
    forall|i: int, j: int| 0 <= i < j < s.len() ==> s[i].modified >= s[j].modified
}

/// Sort sessions by modification time, newest first.
#[verifier::loop_isolation(false)]
fn sort_sessions(input: Vec<Session>) -> (r: Vec<Session>)
    ensures
        r.deep_view().to_multiset() == input.deep_view().to_multiset(),
        sorted_by_modified_desc(r.deep_view()),
{
    let ghost orig = input.deep_view();
    let mut v = input;
    let mut out: Vec<Session> = Vec::new();
    proof {
        lemma_empty_to_multiset(out.deep_view(), v.deep_view().to_multiset());
    }
    while v.len() > 0
        invariant
            out.deep_view().to_multiset().add(v.deep_view().to_multiset())
                == orig.to_multiset(),
            sorted_by_modified_desc(out.deep_view()),
        decreases v.len(),
    {
        let ghost vd = v.deep_view();
        let x = v.remove(0);
        proof {
            assert(v.deep_view() =~= vd.remove(0));
            lemma_drop_first_to_multiset(vd);
        }
        let mut k: usize = 0;
        while k < out.len() && out[k].modified >= x.modified
            invariant
                k <= out.len(),
                forall|j: int| 0 <= j < k ==> out.deep_view()[j].modified >= x.modified,
            decreases out.len() - k,
        {
            k += 1;
        }
        let ghost outd = out.deep_view();
        proof {
            assert forall|j: int| k as int <= j < outd.len() implies outd[j].modified
                < x.deep_view().modified by {
                if j > k as int {
                    assert(outd[k as int].modified >= outd[j].modified);
                }
            }
        }
        out.insert(k, x);
        proof {
            assert(out.deep_view() =~= outd.insert(k as int, x.deep_view()));
            lemma_insert_to_multiset(outd, k as int, x.deep_view());
            assert(sorted_by_modified_desc(out.deep_view()));
            assert(out.deep_view().to_multiset().add(v.deep_view().to_multiset())
                =~= orig.to_multiset());
        }
    }
    proof {
        lemma_empty_to_multiset(v.deep_view(), out.deep_view().to_multiset());
    }
    out
}

/// List the sessions of one project directory: one entry per transcript file
/// with at least one displayable message, newest first.
#[verifier::loop_isolation(false)]
pub fn get_sessions(sources: &Vec<SessionSource>) -> (r: Vec<Session>)
    ensures
        r.deep_view().to_multiset() == sessions_of(sources.deep_view()).to_multiset(),
        sorted_by_modified_desc(r.deep_view()),
{
    let ghost sv = sources.deep_view();
    let mut out: Vec<Session> = Vec::new();
    let n = sources.len();
    let mut i: usize = 0;
    proof {
        assert(sv.take(0) =~= Seq::<SessionSourceV>::empty());
    }
    while i < n
        invariant
            i <= n,
            out.deep_view() == sessions_of(sv.take(i as int)),
        decreases n - i,
    {
        proof {
            assert(sv.take(i + 1 as int).drop_last() =~= sv.take(i as int));
            assert(sv.take(i + 1 as int).last() == sv[i as int]);
        }
        let src = &sources[i];
        let (input_tokens, output_tokens, message_count) = calculate_session_stats(&src.lines);
        if message_count > 0 {
            proof {
                assert(sum_msgs(src.deep_view().lines) > 0);
            }
            let id = file_stem(src.name.as_str());
            out.push(
                Session {
                    id,
                    path: src.path.clone(),
                    size: src.size,
                    modified: src.modified,
                    input_tokens,
                    output_tokens,
                },
            );
            assert(out.deep_view() =~= sessions_of(sv.take(i + 1 as int)));
        } else {
            proof {
                assert(cap_u32(sum_msgs(src.deep_view().lines)) == 0);
                assert(sum_msgs(src.deep_view().lines) == 0);
            }
            assert(out.deep_view() =~= sessions_of(sv.take(i + 1 as int)));
        }
        i += 1;
    }
    proof {
        assert(sv.take(n as int) =~= sv);
    }
    sort_sessions(out)
}

} // verus!
