//! The records the Session Registry holds, and their views.

use vstd::prelude::*;

use crate::cli::size_text;

verus! {

broadcast use vstd::string::group_string_axioms;

/// A terminal size as the registry stores it.
#[derive(Debug, Clone, Copy, PartialEq, Eq, Structural)]
pub struct SizeRecord {
    pub cols: u16,
    pub rows: u16,
}

impl SizeRecord {
    /// The size of a parsed `COLSxROWS` argument.
    pub fn from_size(size: crate::cli::Size) -> (r: Self)
        ensures
            r.cols == size.cols,
            r.rows == size.rows,
    {
        SizeRecord { cols: size.cols, rows: size.rows }
    }

    /// The size as `COLSxROWS`.
    pub fn to_string(&self) -> (s: String)
        ensures
            s@ == size_text(self.cols, self.rows),
    {
        crate::cli::Size { cols: self.cols, rows: self.rows }.to_string()
    }
}

/// One active Session as the registry knows it.
#[derive(Debug, PartialEq, Eq)]
pub struct SessionRecord {
    pub id: String,
    pub name: Option<String>,
    pub cwd: String,
    pub artifact_dir: String,
    pub size: SizeRecord,
    pub supervisor_pid: u32,
    pub child_pid: Option<u32>,
    pub listen: String,
}

/// A Session record as values.
pub struct SessionRecordView {
    pub id: Seq<char>,
    pub name: Option<Seq<char>>,
    pub cwd: Seq<char>,
    pub artifact_dir: Seq<char>,
    pub size: SizeRecord,
    pub supervisor_pid: u32,
    pub child_pid: Option<u32>,
    pub listen: Seq<char>,
}

pub open spec fn opt_view(o: Option<String>) -> Option<Seq<char>> {
    match o {
        Some(s) => Some(s@),
        None => None,
    }
}

pub open spec fn opt_str_view(o: Option<&str>) -> Option<Seq<char>> {
    match o {
        Some(s) => Some(s@),
        None => None,
    }
}

impl View for SessionRecord {
    type V = SessionRecordView;

    open spec fn view(&self) -> SessionRecordView {
        SessionRecordView {
            id: self.id@,
            name: opt_view(self.name),
            cwd: self.cwd@,
            artifact_dir: self.artifact_dir@,
            size: self.size,
            supervisor_pid: self.supervisor_pid,
            child_pid: self.child_pid,
            listen: self.listen@,
        }
    }
}

pub open spec fn records_view(v: Seq<SessionRecord>) -> Seq<SessionRecordView> {
    v.map_values(|r: SessionRecord| r@)
}

fn clone_opt_string(o: &Option<String>) -> (r: Option<String>)
    ensures
        opt_view(r) == opt_view(*o),
{
    match o {
        Some(s) => Some(s.clone()),
        None => None,
    }
}

impl SessionRecord {
    /// A copy of the record.
    pub fn duplicate(&self) -> (r: Self)
        ensures
            r@ == self@,
    {
        SessionRecord {
            id: self.id.clone(),
            name: clone_opt_string(&self.name),
            cwd: self.cwd.clone(),
            artifact_dir: self.artifact_dir.clone(),
            size: self.size,
            supervisor_pid: self.supervisor_pid,
            child_pid: self.child_pid,
            listen: self.listen.clone(),
        }
    }
}

impl Clone for SessionRecord {
    fn clone(&self) -> (r: Self)
        ensures
            r@ == self@,
    {
        self.duplicate()
    }
}

pub broadcast proof fn lemma_records_view_len(v: Seq<SessionRecord>)
    ensures
        #[trigger] records_view(v).len() == v.len(),
{
}

pub broadcast proof fn lemma_records_view_index(v: Seq<SessionRecord>, i: int)
    requires
        0 <= i < v.len(),
    ensures
        #[trigger] records_view(v)[i] == v[i]@,
{
}

pub broadcast group group_records_view {
    lemma_records_view_len,
    lemma_records_view_index,
}

} // verus!
