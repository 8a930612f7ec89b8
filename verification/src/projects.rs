//! The project enumerator: turning directory listings into sorted projects.
//!
//! Project directory names flatten a path into one segment with `-` in place
//! of `/`. Reconstructing the human path replaces every `-` with `/` and
//! strips leading slashes; this is lossy when the true path itself contained
//! a hyphen, a known ambiguity kept for compatibility.

use vstd::prelude::*;
use vstd::string::*;
use crate::ext::push_char;
use crate::sums::{lemma_drop_first_to_multiset, lemma_empty_to_multiset, lemma_insert_to_multiset};
use crate::text::{lemma_str_le_total, lemma_str_le_trans, str_eq, str_le, str_le_exec};

verus! {

/// One project: its reconstructed name, directory path, and transcript count.
pub struct Project {
    pub name: String,
    pub path: String,
    pub session_count: usize,
}

#[verifier::ext_equal]
pub ghost struct ProjectV {
    pub name: Seq<char>,
    pub path: Seq<char>,
    pub session_count: nat,
}

impl DeepView for Project {
    type V = ProjectV;

    open spec fn deep_view(&self) -> ProjectV {
        ProjectV { name: self.name@, path: self.path@, session_count: self.session_count as nat }
    }
}

/// One directory as the filesystem reports it: its own name, its absolute
/// path, and the file names directly inside it.
pub struct DirListing {
    pub name: String,
    pub path: String,
    pub files: Vec<String>,
}

#[verifier::ext_equal]
pub ghost struct DirListingV {
    pub name: Seq<char>,
    pub path: Seq<char>,
    pub files: Seq<Seq<char>>,
}

impl DeepView for DirListing {
    type V = DirListingV;

    open spec fn deep_view(&self) -> DirListingV {
        DirListingV { name: self.name@, path: self.path@, files: self.files.deep_view() }
    }
}

/// A transcript file name: something before a `.jsonl` extension.
pub open spec fn spec_is_jsonl_name(name: Seq<char>) -> bool {
    name.len() >= 7 && name.subrange(name.len() - 6, name.len() as int) == ".jsonl"@
}

/// Whether a file name has the `.jsonl` extension.
pub fn is_jsonl_name(name: &str) -> (r: bool)
    ensures
        r == spec_is_jsonl_name(name@),
{
    let n = name.unicode_len();
    n >= 7 && str_eq(name.substring_char(n - 6, n), ".jsonl")
}

/// How many of the names are transcript files.
pub open spec fn count_jsonl(files: Seq<Seq<char>>) -> nat
    decreases files.len(),
{
    if files.len() == 0 {
        0
    } else {
        count_jsonl(files.drop_last()) + if spec_is_jsonl_name(files.last()) {
            1nat
        } else {
            0nat
        }
    }
}

pub proof fn lemma_count_jsonl_le_len(files: Seq<Seq<char>>)
    ensures
        count_jsonl(files) <= files.len(),
    decreases files.len(),
{
    if files.len() > 0 {
        lemma_count_jsonl_le_len(files.drop_last());
    }
}

/// Count the `.jsonl` files of a directory listing.
#[verifier::loop_isolation(false)]
pub fn count_jsonl_files(files: &Vec<String>) -> (r: usize)
    ensures
        r == count_jsonl(files.deep_view()),
{
    let ghost fv = files.deep_view();
    let n = files.len();
    let mut count: usize = 0;
    let mut i: usize = 0;
    proof {
        assert(fv.take(0) =~= Seq::<Seq<char>>::empty());
    }
    while i < n
        invariant
            i <= n,
            count == count_jsonl(fv.take(i as int)),
        decreases n - i,
    {
        proof {
            assert(fv.take(i + 1 as int).drop_last() =~= fv.take(i as int));
            assert(fv.take(i + 1 as int).last() == fv[i as int]);
            lemma_count_jsonl_le_len(fv.take(i as int));
        }
        if is_jsonl_name(files[i].as_str()) {
            count += 1;
        }
        i += 1;
    }
    proof {
        assert(fv.take(n as int) =~= fv);
    }
    count
}

/// Every `-` replaced by `/`.
pub open spec fn replace_dash(s: Seq<char>) -> Seq<char> {
    s.map_values(|c: char| if c == '-' { '/' } else { c })
}

/// Leading slashes removed.
pub open spec fn ltrim_slash(s: Seq<char>) -> Seq<char>
    decreases s.len(),
{
    if s.len() > 0 && s[0] == '/' {
        ltrim_slash(s.drop_first())
    } else {
        s
    }
}

/// The human path a flattened directory name stands for.
pub open spec fn project_name_of(dir_name: Seq<char>) -> Seq<char> {
    ltrim_slash(replace_dash(dir_name))
}

/// `ltrim_slash` drops exactly the leading run of slashes.
proof fn lemma_ltrim_slash_skip(s: Seq<char>, k: int)
    requires
        0 <= k <= s.len(),
        forall|j: int| 0 <= j < k ==> s[j] == '/',
        k < s.len() ==> s[k] != '/',
    ensures
        ltrim_slash(s) == s.skip(k),
    decreases k,
{
    if k == 0 {
        assert(s.skip(0) =~= s);
    } else {
        lemma_ltrim_slash_skip(s.drop_first(), k - 1);
        assert(s.drop_first().skip(k - 1) =~= s.skip(k));
    }
}

/// Reconstruct a project's human path from its directory name.
#[verifier::loop_isolation(false)]
pub fn project_name_from_dir(dir_name: &str) -> (r: String)
    ensures
        r@ == project_name_of(dir_name@),
{
    let ghost dv = dir_name@;
    let n = dir_name.unicode_len();
    let mut start: usize = 0;
    while start < n && dir_name.get_char(start) == '-' || start < n && dir_name.get_char(start)
        == '/'
        invariant
            start <= n,
            forall|j: int| 0 <= j < start ==> replace_dash(dv)[j] == '/',
        decreases n - start,
    {
        start += 1;
    }
    proof {
        if start < n {
            assert(replace_dash(dv)[start as int] != '/');
        }
        lemma_ltrim_slash_skip(replace_dash(dv), start as int);
    }
    let mut out = String::new();
    let mut i: usize = start;
    while i < n
        invariant
            start <= i <= n,
            out@ =~= replace_dash(dv).skip(start as int).take(i - start),
        decreases n - i,
    {
        let c = dir_name.get_char(i);
        if c == '-' {
            push_char(&mut out, '/');
        } else {
            push_char(&mut out, c);
        }
        proof {
            assert(out@ =~= replace_dash(dv).skip(start as int).take(i + 1 - start));
        }
        i += 1;
    }
    proof {
        assert(replace_dash(dv).skip(start as int).take(n - start) =~= replace_dash(dv).skip(
            start as int,
        ));
    }
    out
}

/// The projects a set of directory listings yields, in listing order: a
/// directory is included exactly when it holds at least one transcript.
pub open spec fn projects_of(listings: Seq<DirListingV>) -> Seq<ProjectV>
    decreases listings.len(),
{
    if listings.len() == 0 {
        Seq::empty()
    } else {
        projects_of(listings.drop_last()) + if count_jsonl(listings.last().files) > 0 {
            seq![
                ProjectV {
                    name: project_name_of(listings.last().name),
                    path: listings.last().path,
                    session_count: count_jsonl(listings.last().files),
                },
            ]
        } else {
            Seq::empty()
        }
    }
}

/// The synthetic legacy-transcripts project, present exactly when that
/// directory holds at least one transcript.
pub open spec fn legacy_project_of(transcripts: Option<DirListingV>) -> Seq<ProjectV> {
    match transcripts {
        Some(t) => if count_jsonl(t.files) > 0 {
            seq![
                ProjectV {
                    name: "OpenCode Sessions"@,
                    path: t.path,
                    session_count: count_jsonl(t.files),
                },
            ]
        } else {
            Seq::empty()
        },
        None => Seq::empty(),
    }
}

pub open spec fn sorted_by_name_asc(s: Seq<ProjectV>) -> bool {
    forall|i: int, j: int| 0 <= i < j < s.len() ==> str_le(s[i].name, s[j].name)
}

/// Sort projects by name, ascending.
#[verifier::loop_isolation(false)]
fn sort_projects(input: Vec<Project>) -> (r: Vec<Project>)
    ensures
        r.deep_view().to_multiset() == input.deep_view().to_multiset(),
        sorted_by_name_asc(r.deep_view()),
{
    let ghost orig = input.deep_view();
    let mut v = input;
    let mut out: Vec<Project> = Vec::new();
    proof {
        lemma_empty_to_multiset(out.deep_view(), v.deep_view().to_multiset());
    }
    while v.len() > 0
        invariant
            out.deep_view().to_multiset().add(v.deep_view().to_multiset()) == orig.to_multiset(),
            sorted_by_name_asc(out.deep_view()),
        decreases v.len(),
    {
        let ghost vd = v.deep_view();
        let x = v.remove(0);
        proof {
            assert(v.deep_view() =~= vd.remove(0));
            lemma_drop_first_to_multiset(vd);
        }
        let mut k: usize = 0;
        while k < out.len() && str_le_exec(out[k].name.as_str(), x.name.as_str())
            invariant
                k <= out.len(),
                forall|j: int| 0 <= j < k ==> str_le(out.deep_view()[j].name, x.deep_view().name),
            decreases out.len() - k,
        {
            k += 1;
        }
        let ghost outd = out.deep_view();
        proof {
            assert forall|j: int| k as int <= j < outd.len() implies str_le(
                x.deep_view().name,
                outd[j].name,
            ) by {
                lemma_str_le_total(outd[k as int].name, x.deep_view().name);
                if j > k as int {
                    lemma_str_le_trans(x.deep_view().name, outd[k as int].name, outd[j].name);
                }
            }
        }
        out.insert(k, x);
        proof {
            assert(out.deep_view() =~= outd.insert(k as int, x.deep_view()));
            lemma_insert_to_multiset(outd, k as int, x.deep_view());
            assert(sorted_by_name_asc(out.deep_view()));
            assert(out.deep_view().to_multiset().add(v.deep_view().to_multiset())
                =~= orig.to_multiset());
        }
    }
    proof {
        lemma_empty_to_multiset(v.deep_view(), out.deep_view().to_multiset());
    }
    out
}

/// List the projects: every directory with at least one transcript, plus the
/// synthetic legacy-transcripts project when that directory has one, sorted
/// by name ascending.
#[verifier::loop_isolation(false)]
pub fn get_projects(listings: &Vec<DirListing>, transcripts: &Option<DirListing>) -> (r: Vec<
    Project,
>)
    ensures
        r.deep_view().to_multiset() == (projects_of(listings.deep_view()) + legacy_project_of(
            transcripts.deep_view(),
        )).to_multiset(),
        sorted_by_name_asc(r.deep_view()),
{
    let ghost lv = listings.deep_view();
    let n = listings.len();
    let mut out: Vec<Project> = Vec::new();
    let mut i: usize = 0;
    proof {
        assert(lv.take(0) =~= Seq::<DirListingV>::empty());
    }
    while i < n
        invariant
            i <= n,
            out.deep_view() == projects_of(lv.take(i as int)),
        decreases n - i,
    {
        proof {
            assert(lv.take(i + 1 as int).drop_last() =~= lv.take(i as int));
            assert(lv.take(i + 1 as int).last() == lv[i as int]);
        }
        let d = &listings[i];
        let session_count = count_jsonl_files(&d.files);
        if session_count > 0 {
            let name = project_name_from_dir(d.name.as_str());
            out.push(Project { name, path: d.path.clone(), session_count });
        }
        assert(out.deep_view() =~= projects_of(lv.take(i + 1 as int)));
        i += 1;
    }
    proof {
        assert(lv.take(n as int) =~= lv);
    }
    match transcripts {
        Some(t) => {
            let session_count = count_jsonl_files(&t.files);
            if session_count > 0 {
                out.push(
                    Project {
                        name: String::from_str("OpenCode Sessions"),
                        path: t.path.clone(),
                        session_count,
                    },
                );
            }
            assert(out.deep_view() =~= projects_of(lv) + legacy_project_of(
                transcripts.deep_view(),
            ));
        },
        None => {
            assert(out.deep_view() =~= projects_of(lv) + legacy_project_of(
                transcripts.deep_view(),
            ));
        },
    }
    sort_projects(out)
}

} // verus!
