//! The scanned tree: every project directory with its transcript files, as
//! the caller read them from disk. A file that could not be read carries no
//! lines; it still counts as a session where sessions are counted.

use vstd::prelude::*;

verus! {

/// One transcript file of a project: its file name, its path, and its
/// content lines (`None` when the file could not be read).
pub struct SessionFile {
    pub name: String,
    pub path: String,
    pub lines: Option<Vec<String>>,
}

#[verifier::ext_equal]
pub ghost struct SessionFileV {
    pub name: Seq<char>,
    pub path: Seq<char>,
    pub lines: Option<Seq<Seq<char>>>,
}

impl DeepView for SessionFile {
    type V = SessionFileV;

    open spec fn deep_view(&self) -> SessionFileV {
        SessionFileV { name: self.name@, path: self.path@, lines: self.lines.deep_view() }
    }
}

/// One project directory with its transcript files.
pub struct ProjectDir {
    pub dir_name: String,
    pub path: String,
    pub sessions: Vec<SessionFile>,
}

#[verifier::ext_equal]
pub ghost struct ProjectDirV {
    pub dir_name: Seq<char>,
    pub path: Seq<char>,
    pub sessions: Seq<SessionFileV>,
}

impl DeepView for ProjectDir {
    type V = ProjectDirV;

    open spec fn deep_view(&self) -> ProjectDirV {
        ProjectDirV {
            dir_name: self.dir_name@,
            path: self.path@,
            sessions: self.sessions.deep_view(),
        }
    }
}

/// The lines of one session, empty when the file was unreadable.
pub open spec fn session_lines(s: SessionFileV) -> Seq<Seq<char>> {
    match s.lines {
        Some(ls) => ls,
        None => Seq::empty(),
    }
}

} // verus!
