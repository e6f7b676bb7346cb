//! Session records and the Session Registry.
//!
//! The registry is the global list of active Sessions. Its operations work on
//! the records as loaded from the registry file, after the records whose
//! supervisor process is gone have been dropped; reading, locking and writing
//! the file, and asking the OS which processes are alive, happen outside.

use vstd::prelude::*;

use crate::cli::{size_text, TargetSelector};
pub use crate::record::{
    opt_str_view, opt_view, records_view, SessionRecord, SessionRecordView, SizeRecord,
};
use crate::paths::{join, path_join};
use crate::text::{push_decimal, push_str};

verus! {

broadcast use vstd::string::group_string_axioms, crate::record::group_records_view;

/// The project-local Artifact Directory of a Session opened in `cwd`.
pub open spec fn artifact_dir_spec(cwd: Seq<char>) -> Seq<char> {
    path_join(cwd, ".neowright"@)
}

/// The Artifact Directory of a Session opened in `cwd`: `cwd/.neowright`.
pub fn artifact_dir_for(cwd: &str) -> (p: String)
    ensures
        p@ == artifact_dir_spec(cwd@),
{
    join(cwd, ".neowright")
}

/// Returns a fresh Session ID from `uuid::Uuid::new_v4().simple()`: 32 lowercase
/// hexadecimal digits (the `simple` format of the `uuid` crate). Which digits is
/// left open: they come from the system's random source, and `uuid` panics when
/// that source fails, which no argument can rule out.
#[verifier::external_body]
pub fn generate_id() -> (id: String)
    ensures
        id@.len() == 32,
        forall|i: int|
            0 <= i < 32 ==> ('0' <= #[trigger] id@[i] <= '9' || 'a' <= id@[i] <= 'f'),
{
    uuid::Uuid::new_v4().simple().to_string()
}

/// The first index of `s` at which `p` holds.
pub open spec fn first_where(s: Seq<SessionRecordView>, p: spec_fn(SessionRecordView) -> bool) -> Option<int>
    decreases s.len(),
{
    if s.len() == 0 {
        None
    } else if p(s[0]) {
        Some(0)
    } else {
        match first_where(s.drop_first(), p) {
            Some(i) => Some(i + 1),
            None => None,
        }
    }
}

pub proof fn lemma_first_where(s: Seq<SessionRecordView>, p: spec_fn(SessionRecordView) -> bool)
    ensures
        match first_where(s, p) {
            Some(i) => 0 <= i < s.len() && p(s[i]) && forall|j: int| 0 <= j < i ==> !p(#[trigger] s[j]),
            None => forall|j: int| 0 <= j < s.len() ==> !p(#[trigger] s[j]),
        },
    decreases s.len(),
{
    if s.len() > 0 && !p(s[0]) {
        lemma_first_where(s.drop_first(), p);
        assert forall|j: int| 0 < j < s.len() implies s[j] == s.drop_first()[j - 1] by {}
    }
}

pub proof fn lemma_first_where_at(s: Seq<SessionRecordView>, p: spec_fn(SessionRecordView) -> bool, i: int)
    requires
        0 <= i < s.len(),
        p(s[i]),
        forall|j: int| 0 <= j < i ==> !p(#[trigger] s[j]),
    ensures
        first_where(s, p) == Some(i),
{
    lemma_first_where(s, p);
    match first_where(s, p) {
        Some(k) => {
            if k < i {
                assert(!p(s[k]));
            } else if k > i {
                assert(!p(s[i]));
            }
        },
        None => {
            assert(!p(s[i]));
        },
    }
}

pub proof fn lemma_first_where_none(s: Seq<SessionRecordView>, p: spec_fn(SessionRecordView) -> bool)
    requires
        forall|j: int| 0 <= j < s.len() ==> !p(#[trigger] s[j]),
    ensures
        first_where(s, p) is None,
{
    lemma_first_where(s, p);
    if let Some(k) = first_where(s, p) {
        assert(!p(s[k]));
    }
}

pub open spec fn has_id(id: Seq<char>) -> spec_fn(SessionRecordView) -> bool {
    |r: SessionRecordView| r.id == id
}

pub open spec fn has_name(name: Seq<char>) -> spec_fn(SessionRecordView) -> bool {
    |r: SessionRecordView| r.name == Some(name)
}

/// Another record (not `replacing_id`) already carries `name`.
pub open spec fn name_taken(
    records: Seq<SessionRecordView>,
    name: Seq<char>,
    replacing_id: Option<Seq<char>>,
) -> bool {
    exists|i: int|
        0 <= i < records.len() && replacing_id != Some(#[trigger] records[i].id) && records[i].name
            == Some(name)
}

pub open spec fn name_taken_message(name: Seq<char>) -> Seq<char> {
    "Session Name `"@ + name + "` is already active"@
}

pub open spec fn no_session_id_message(id: Seq<char>) -> Seq<char> {
    "no active Session found with Session ID `"@ + id + "`"@
}

pub open spec fn no_session_name_message(name: Seq<char>) -> Seq<char> {
    "no active Session found with Session Name `"@ + name + "`"@
}

pub open spec fn no_sessions_message() -> Seq<char> {
    "no active Sessions; pass --session or --name after opening one"@
}

/// `ensure_name_available`: a name may be used unless another active record has it.
pub open spec fn name_check(
    records: Seq<SessionRecordView>,
    name: Option<Seq<char>>,
    replacing_id: Option<Seq<char>>,
) -> Result<(), Seq<char>> {
    match name {
        None => Ok(()),
        Some(n) => if name_taken(records, n, replacing_id) {
            Err(name_taken_message(n))
        } else {
            Ok(())
        },
    }
}

/// `records` without the records whose id is `id`, in their order.
pub open spec fn without_id(records: Seq<SessionRecordView>, id: Seq<char>) -> Seq<SessionRecordView>
    decreases records.len(),
{
    if records.len() == 0 {
        records
    } else if records.last().id == id {
        without_id(records.drop_last(), id)
    } else {
        without_id(records.drop_last(), id).push(records.last())
    }
}

/// The records after inserting `record`, or the error that refuses it.
pub open spec fn insert_spec(records: Seq<SessionRecordView>, record: SessionRecordView) -> Result<
    Seq<SessionRecordView>,
    Seq<char>,
> {
    match name_check(records, record.name, Some(record.id)) {
        Err(m) => Err(m),
        Ok(_) => Ok(without_id(records, record.id).push(record)),
    }
}

/// The records after replacing the first one with `updated`'s id, or the error
/// when there is none.
pub open spec fn update_spec(records: Seq<SessionRecordView>, updated: SessionRecordView) -> Result<
    Seq<SessionRecordView>,
    Seq<char>,
> {
    match first_where(records, has_id(updated.id)) {
        Some(i) => Ok(records.update(i, updated)),
        None => Err(no_session_id_message(updated.id)),
    }
}

/// `(unnamed)` for a Session without a name.
pub open spec fn display_name(name: Option<Seq<char>>) -> Seq<char> {
    match name {
        Some(n) => n,
        None => "(unnamed)"@,
    }
}

/// One bullet of the active Session list.
pub open spec fn session_entry(r: SessionRecordView) -> Seq<char> {
    "\n- Session ID: `"@ + r.id + "`\n  Session Name: `"@ + display_name(r.name)
        + "`\n  Opened From: `"@ + r.cwd + "`\n  Size: `"@ + size_text(r.size.cols, r.size.rows)
        + "`"@
}

/// The bullets of all `records`, in order.
pub open spec fn session_entries(records: Seq<SessionRecordView>) -> Seq<char>
    decreases records.len(),
{
    if records.len() == 0 {
        Seq::empty()
    } else {
        session_entries(records.drop_last()) + session_entry(records.last())
    }
}

/// `Active Sessions:` followed by one bullet per record.
pub open spec fn session_list_text(records: Seq<SessionRecordView>) -> Seq<char> {
    "Active Sessions:"@ + session_entries(records)
}

pub open spec fn multiple_sessions_message(records: Seq<SessionRecordView>) -> Seq<char> {
    "multiple active Sessions; pass --session or --name\n\n"@ + session_list_text(records)
}

/// Which record a selector picks: by id, else by name, else the only record.
pub open spec fn resolve_spec(
    records: Seq<SessionRecordView>,
    session: Option<Seq<char>>,
    name: Option<Seq<char>>,
) -> Result<SessionRecordView, Seq<char>> {
    match session {
        Some(id) => match first_where(records, has_id(id)) {
            Some(i) => Ok(records[i]),
            None => Err(no_session_id_message(id)),
        },
        None => match name {
            Some(n) => match first_where(records, has_name(n)) {
                Some(i) => Ok(records[i]),
                None => Err(no_session_name_message(n)),
            },
            None => if records.len() == 0 {
                Err(no_sessions_message())
            } else if records.len() == 1 {
                Ok(records[0])
            } else {
                Err(multiple_sessions_message(records))
            },
        },
    }
}

/// Appends one bullet of the active Session list to `out`.
pub fn push_session_entry(out: &mut String, r: &SessionRecord)
    ensures
        final(out)@ == old(out)@ + session_entry(r@),
{
    push_str(out, "\n- Session ID: `");
    push_str(out, r.id.as_str());
    push_str(out, "`\n  Session Name: `");
    match &r.name {
        Some(n) => push_str(out, n.as_str()),
        None => push_str(out, "(unnamed)"),
    }
    push_str(out, "`\n  Opened From: `");
    push_str(out, r.cwd.as_str());
    push_str(out, "`\n  Size: `");
    let size = r.size.to_string();
    push_str(out, size.as_str());
    push_str(out, "`");
    assert(out@ =~= old(out)@ + session_entry(r@));
}

/// `Active Sessions:` and one bullet per record.
pub fn active_session_list(records: &[SessionRecord]) -> (s: String)
    ensures
        s@ == session_list_text(records_view(records@)),
{
    let mut s = "Active Sessions:".to_string();
    let mut i: usize = 0;
    while i < records.len()
        invariant
            i <= records.len(),
            s@ == "Active Sessions:"@ + session_entries(records_view(records@).take(i as int)),
        decreases records.len() - i,
    {
        push_session_entry(&mut s, &records[i]);
        proof {
            let t = records_view(records@).take(i + 1);
            assert(t.drop_last() =~= records_view(records@).take(i as int));
        }
        i += 1;
        assert(s@ =~= "Active Sessions:"@ + session_entries(records_view(records@).take(i as int)));
    }
    assert(records_view(records@).take(records.len() as int) =~= records_view(records@));
    s
}

fn opt_string_eq(a: &Option<String>, b: &str) -> (r: bool)
    ensures
        r == (opt_view(*a) == Some(b@)),
{
    match a {
        Some(s) => str_eq(s.as_str(), b),
        None => false,
    }
}

fn str_eq(a: &str, b: &str) -> (r: bool)
    ensures
        r == (a@ == b@),
{
    let x = a.to_string();
    let y = b.to_string();
    x == y
}

/// Checks that `name` is not carried by an active record other than `replacing_id`.
pub fn check_name_available(
    records: &Vec<SessionRecord>,
    name: Option<&str>,
    replacing_id: Option<&str>,
) -> (r: Result<(), String>)
    ensures
        match name_check(records_view(records@), opt_str_view(name), opt_str_view(replacing_id)) {
            Ok(_) => r is Ok,
            Err(m) => r matches Err(e) && e@ == m,
        },
{
    let n = match name {
        None => return Ok(()),
        Some(n) => n,
    };
    let ghost rv = records_view(records@);
    let mut i: usize = 0;
    while i < records.len()
        invariant
            i <= records.len(),
            rv == records_view(records@),
            name == Some(n),
            forall|j: int|
                0 <= j < i ==> !(opt_str_view(replacing_id) != Some(#[trigger] rv[j].id) && rv[j].name
                    == Some(n@)),
        decreases records.len() - i,
    {
        let same_id = match replacing_id {
            Some(id) => str_eq(records[i].id.as_str(), id),
            None => false,
        };
        if !same_id && opt_string_eq(&records[i].name, n) {
            assert(rv[i as int] == records@[i as int]@);
            assert(opt_str_view(replacing_id) != Some(rv[i as int].id) && rv[i as int].name == Some(n@));
            assert(name_taken(rv, n@, opt_str_view(replacing_id)));
            let mut m = "Session Name `".to_string();
            push_str(&mut m, n);
            push_str(&mut m, "` is already active");
            assert(m@ == name_taken_message(n@));
            assert(opt_str_view(name) == Some(n@));
            return Err(m);
        }
        i += 1;
    }
    Ok(())
}

/// The records whose flag in `alive` is set, in order.
pub open spec fn keep_alive(records: Seq<SessionRecordView>, alive: Seq<bool>) -> Seq<SessionRecordView>
    decreases records.len(),
{
    if records.len() == 0 || alive.len() == 0 {
        Seq::empty()
    } else if alive.last() {
        keep_alive(records.drop_last(), alive.drop_last()).push(records.last())
    } else {
        keep_alive(records.drop_last(), alive.drop_last())
    }
}

/// The registry's view: where its file is, and the active records it holds.
pub struct RegistryView {
    pub path: Seq<char>,
    pub records: Seq<SessionRecordView>,
}

/// The global Session Registry: its file's path and the records read from it.
pub struct SessionRegistry {
    path: String,
    records: Vec<SessionRecord>,
}

impl View for SessionRegistry {
    type V = RegistryView;

    closed spec fn view(&self) -> RegistryView {
        RegistryView { path: self.path@, records: records_view(self.records@) }
    }
}

/// Where the registry file lives, given `$XDG_STATE_HOME` and `$HOME`.
pub open spec fn registry_path_spec(xdg_state_home: Option<Seq<char>>, home: Option<Seq<char>>) -> Result<
    Seq<char>,
    Seq<char>,
> {
    match xdg_state_home {
        Some(x) => Ok(path_join(x, "neowright/registry.json"@)),
        None => match home {
            Some(h) => Ok(path_join(path_join(h, ".local/state"@), "neowright/registry.json"@)),
            None => Err("HOME or XDG_STATE_HOME must be set for the Session Registry"@),
        },
    }
}

impl SessionRegistry {
    /// The global registry located from `$XDG_STATE_HOME`, or else `$HOME`, with
    /// no records loaded yet.
    pub fn load_global(xdg_state_home: Option<&str>, home: Option<&str>) -> (r: Result<Self, String>)
        ensures
            match registry_path_spec(opt_str_view(xdg_state_home), opt_str_view(home)) {
                Ok(p) => r matches Ok(reg) && reg@.path == p && reg@.records.len() == 0,
                Err(m) => r matches Err(e) && e@ == m,
            },
    {
        let path = match xdg_state_home {
            Some(x) => join(x, "neowright/registry.json"),
            None => match home {
                Some(h) => {
                    let base = join(h, ".local/state");
                    join(base.as_str(), "neowright/registry.json")
                },
                None => return Err("HOME or XDG_STATE_HOME must be set for the Session Registry".to_string()),
            },
        };
        let reg = SessionRegistry { path, records: Vec::new() };
        assert(reg@.records =~= Seq::<SessionRecordView>::empty());
        Ok(reg)
    }

    /// The registry file's path.
    pub fn path(&self) -> (p: &str)
        ensures
            p@ == self@.path,
    {
        self.path.as_str()
    }

    /// The records held, in order.
    pub fn records(&self) -> (r: &Vec<SessionRecord>)
        ensures
            records_view(r@) == self@.records,
    {
        &self.records
    }

    /// Replaces the held records with those read from the registry file.
    pub fn load_records(&mut self, records: Vec<SessionRecord>)
        ensures
            final(self)@.path == old(self)@.path,
            final(self)@.records == records_view(records@),
    {
        self.records = records;
    }

    /// Keeps the records whose supervisor is alive (`alive[i]` for `records[i]`),
    /// in their order.
    pub fn retain_active(&mut self, alive: &Vec<bool>)
        requires
            alive.len() == old(self)@.records.len(),
        ensures
            final(self)@.path == old(self)@.path,
            final(self)@.records == keep_alive(old(self)@.records, alive@),
    {
        let ghost old_records = self@.records;
        let mut kept: Vec<SessionRecord> = Vec::new();
        let mut i: usize = 0;
        let n = self.records.len();
        while i < n
            invariant
                i <= n == self.records.len() == alive.len(),
                old_records == records_view(self.records@),
                self@.path == old(self)@.path,
                old_records == old(self)@.records,
                records_view(kept@) == keep_alive(old_records.take(i as int), alive@.take(i as int)),
            decreases n - i,
        {
            proof {
                assert(old_records.take(i + 1).drop_last() =~= old_records.take(i as int));
                assert(alive@.take(i + 1).drop_last() =~= alive@.take(i as int));
            }
            if alive[i] {
                let r = self.records[i].duplicate();
                kept.push(r);
            }
            assert(records_view(kept@) =~= keep_alive(old_records.take(i + 1), alive@.take(i + 1)));
            i += 1;
        }
        assert(old_records.take(n as int) =~= old_records);
        assert(alive@.take(n as int) =~= alive@);
        self.records = kept;
    }

    /// Copies of the active records, in order.
    pub fn active_sessions(&self) -> (r: Vec<SessionRecord>)
        ensures
            records_view(r@) == self@.records,
    {
        let mut out: Vec<SessionRecord> = Vec::new();
        let mut i: usize = 0;
        while i < self.records.len()
            invariant
                i <= self.records.len(),
                out@.len() == i,
                records_view(out@) == records_view(self.records@).take(i as int),
            decreases self.records.len() - i,
        {
            out.push(self.records[i].duplicate());
            i += 1;
            assert(records_view(out@) =~= records_view(self.records@).take(i as int));
        }
        assert(records_view(self.records@).take(self.records.len() as int) =~= records_view(
            self.records@,
        ));
        out
    }

    /// Checks that no active Session carries `name`.
    pub fn ensure_name_available(&self, name: Option<&str>) -> (r: Result<(), String>)
        ensures
            match name_check(self@.records, opt_str_view(name), None) {
                Ok(_) => r is Ok,
                Err(m) => r matches Err(e) && e@ == m,
            },
    {
        check_name_available(&self.records, name, None)
    }

    /// Drops every record whose id is `id`.
    pub fn remove(&mut self, id: &str)
        ensures
            final(self)@.path == old(self)@.path,
            final(self)@.records == without_id(old(self)@.records, id@),
    {
        let ghost old_records = self@.records;
        let mut kept: Vec<SessionRecord> = Vec::new();
        let mut i: usize = 0;
        let n = self.records.len();
        while i < n
            invariant
                i <= n == self.records.len(),
                old_records == records_view(self.records@),
                records_view(kept@) == without_id(old_records.take(i as int), id@),
            decreases n - i,
        {
            proof {
                let t = old_records.take(i + 1);
                assert(t.drop_last() =~= old_records.take(i as int));
            }
            if !str_eq(self.records[i].id.as_str(), id) {
                kept.push(self.records[i].duplicate());
                assert(records_view(kept@) =~= without_id(old_records.take(i + 1), id@));
            }
            i += 1;
        }
        assert(old_records.take(n as int) =~= old_records);
        self.records = kept;
    }

    /// Adds `record`, replacing any record with its id; refused when another
    /// active Session already carries its name.
    pub fn insert(&mut self, record: SessionRecord) -> (r: Result<(), String>)
        ensures
            final(self)@.path == old(self)@.path,
            match insert_spec(old(self)@.records, record@) {
                Ok(s) => r is Ok && final(self)@.records == s,
                Err(m) => r matches Err(e) && e@ == m && final(self)@.records == old(self)@.records,
            },
    {
        let name = match &record.name {
            Some(n) => Some(n.as_str()),
            None => None,
        };
        assert(opt_str_view(name) == record@.name);
        match check_name_available(&self.records, name, Some(record.id.as_str())) {
            Err(e) => return Err(e),
            Ok(()) => {},
        }
        self.remove(record.id.as_str());
        self.records.push(record);
        proof {
            assert(records_view(self.records@) =~= without_id(old(self)@.records, record@.id).push(
                record@,
            ));
        }
        Ok(())
    }

    /// Replaces the record with `updated`'s id.
    pub fn update(&mut self, updated: SessionRecord) -> (r: Result<(), String>)
        ensures
            final(self)@.path == old(self)@.path,
            match update_spec(old(self)@.records, updated@) {
                Ok(s) => r is Ok && final(self)@.records == s,
                Err(m) => r matches Err(e) && e@ == m && final(self)@.records == old(self)@.records,
            },
    {
        let ghost rv = self@.records;
        let mut i: usize = 0;
        while i < self.records.len()
            invariant
                i <= self.records.len(),
                rv == records_view(self.records@),
                rv == old(self)@.records,
                self@.path == old(self)@.path,
                forall|j: int| 0 <= j < i ==> !has_id(updated@.id)(#[trigger] rv[j]),
            decreases self.records.len() - i,
        {
            if str_eq(self.records[i].id.as_str(), updated.id.as_str()) {
                proof {
                    lemma_first_where_at(rv, has_id(updated@.id), i as int);
                }
                self.records.set(i, updated);
                assert(records_view(self.records@) =~= rv.update(i as int, updated@));
                return Ok(());
            }
            i += 1;
        }
        proof {
            lemma_first_where_none(rv, has_id(updated@.id));
        }
        let mut m = "no active Session found with Session ID `".to_string();
        push_str(&mut m, updated.id.as_str());
        push_str(&mut m, "`");
        Err(m)
    }

    /// The record a selector picks: by Session ID, else by Session Name, else the
    /// only active Session.
    pub fn resolve_target(&self, selector: &TargetSelector) -> (r: Result<SessionRecord, String>)
        ensures
            match resolve_spec(self@.records, opt_view(selector.session), opt_view(selector.name)) {
                Ok(rec) => r matches Ok(x) && x@ == rec,
                Err(m) => r matches Err(e) && e@ == m,
            },
    {
        let ghost rv = self@.records;
        if let Some(id) = &selector.session {
            let mut i: usize = 0;
            while i < self.records.len()
                invariant
                    i <= self.records.len(),
                    rv == records_view(self.records@),
                    rv == self@.records,
                    opt_view(selector.session) == Some(id@),
                    forall|j: int| 0 <= j < i ==> !has_id(id@)(#[trigger] rv[j]),
                decreases self.records.len() - i,
            {
                if str_eq(self.records[i].id.as_str(), id.as_str()) {
                    proof {
                        lemma_first_where_at(rv, has_id(id@), i as int);
                    }
                    return Ok(self.records[i].duplicate());
                }
                i += 1;
            }
            proof {
                lemma_first_where_none(rv, has_id(id@));
            }
            let mut m = "no active Session found with Session ID `".to_string();
            push_str(&mut m, id.as_str());
            push_str(&mut m, "`");
            return Err(m);
        }
        if let Some(name) = &selector.name {
            let mut i: usize = 0;
            while i < self.records.len()
                invariant
                    i <= self.records.len(),
                    rv == records_view(self.records@),
                    rv == self@.records,
                    selector.session is None,
                    opt_view(selector.name) == Some(name@),
                    forall|j: int| 0 <= j < i ==> !has_name(name@)(#[trigger] rv[j]),
                decreases self.records.len() - i,
            {
                if opt_string_eq(&self.records[i].name, name.as_str()) {
                    proof {
                        lemma_first_where_at(rv, has_name(name@), i as int);
                    }
                    return Ok(self.records[i].duplicate());
                }
                i += 1;
            }
            proof {
                lemma_first_where_none(rv, has_name(name@));
            }
            let mut m = "no active Session found with Session Name `".to_string();
            push_str(&mut m, name.as_str());
            push_str(&mut m, "`");
            return Err(m);
        }
        if self.records.len() == 0 {
            return Err("no active Sessions; pass --session or --name after opening one".to_string());
        }
        if self.records.len() == 1 {
            return Ok(self.records[0].duplicate());
        }
        let mut m = "multiple active Sessions; pass --session or --name\n\n".to_string();
        let list = active_session_list(self.records.as_slice());
        push_str(&mut m, list.as_str());
        Err(m)
    }
}

} // verus!

verus! {

/// No two records share an id, and no two records share a Session Name.
pub open spec fn registry_well_formed(records: Seq<SessionRecordView>) -> bool {
    &&& forall|i: int, j: int|
        0 <= i < records.len() && 0 <= j < records.len() && i != j ==> #[trigger] records[i].id
            != #[trigger] records[j].id
    &&& forall|i: int, j: int|
        0 <= i < records.len() && 0 <= j < records.len() && i != j && records[i].name is Some
            ==> #[trigger] records[i].name != #[trigger] records[j].name
}

/// Every record kept by `without_id` comes from `records`, keeps its order, and
/// does not carry `id`; every record of `records` without `id` is kept.
pub proof fn lemma_without_id(records: Seq<SessionRecordView>, id: Seq<char>)
    ensures
        without_id(records, id).len() <= records.len(),
        forall|k: int|
            0 <= k < without_id(records, id).len() ==> (#[trigger] without_id(records, id)[k]).id
                != id,
        forall|k: int|
            0 <= k < without_id(records, id).len() ==> exists|m: int|
                0 <= m < records.len() && records[m] == #[trigger] without_id(records, id)[k],
        forall|m: int|
            0 <= m < records.len() && (#[trigger] records[m]).id != id ==> without_id(
                records,
                id,
            ).contains(records[m]),
    decreases records.len(),
{
    if records.len() > 0 {
        let init = records.drop_last();
        lemma_without_id(init, id);
        let w = without_id(records, id);
        let wi = without_id(init, id);
        assert forall|k: int| 0 <= k < w.len() implies exists|m: int|
            0 <= m < records.len() && records[m] == #[trigger] w[k] by {
            if k < wi.len() {
                let m = choose|m: int| 0 <= m < init.len() && init[m] == wi[k];
                assert(records[m] == w[k]);
            } else {
                assert(records[records.len() - 1] == w[k]);
            }
        }
        assert forall|m: int| 0 <= m < records.len() && (#[trigger] records[m]).id != id implies w.contains(
            records[m],
        ) by {
            if m < init.len() {
                assert(init[m] == records[m]);
                let k = choose|k: int| 0 <= k < wi.len() && wi[k] == init[m];
                assert(w[k] == records[m]);
            } else {
                assert(w[w.len() - 1] == records[m]);
            }
        }
    }
}

proof fn lemma_without_id_well_formed(records: Seq<SessionRecordView>, id: Seq<char>)
    requires
        registry_well_formed(records),
    ensures
        registry_well_formed(without_id(records, id)),
    decreases records.len(),
{
    if records.len() > 0 {
        let init = records.drop_last();
        assert(registry_well_formed(init)) by {
            assert forall|i: int, j: int|
                0 <= i < init.len() && 0 <= j < init.len() && i != j implies #[trigger] init[i].id
                != #[trigger] init[j].id by {
                assert(init[i] == records[i] && init[j] == records[j]);
            }
            assert forall|i: int, j: int|
                0 <= i < init.len() && 0 <= j < init.len() && i != j && init[i].name is Some implies #[trigger] init[i].name
                != #[trigger] init[j].name by {
                assert(init[i] == records[i] && init[j] == records[j]);
            }
        }
        lemma_without_id_well_formed(init, id);
        lemma_without_id(init, id);
        let wi = without_id(init, id);
        let last = records.last();
        if last.id != id {
            let w = wi.push(last);
            assert forall|k: int| 0 <= k < wi.len() implies (#[trigger] wi[k]).id != last.id
                && (wi[k].name is Some ==> wi[k].name != last.name) by {
                let m = choose|m: int| 0 <= m < init.len() && init[m] == wi[k];
                assert(records[m] == wi[k]);
                assert(records[m].id != records[records.len() - 1].id);
                if wi[k].name is Some {
                    assert(records[m].name != records[records.len() - 1].name);
                }
            }
            assert forall|i: int, j: int|
                0 <= i < w.len() && 0 <= j < w.len() && i != j implies #[trigger] w[i].id
                != #[trigger] w[j].id by {
                if i < wi.len() && j < wi.len() {
                    assert(w[i] == wi[i] && w[j] == wi[j]);
                } else if i < wi.len() {
                    assert(w[i] == wi[i]);
                } else {
                    assert(w[j] == wi[j]);
                }
            }
            assert forall|i: int, j: int|
                0 <= i < w.len() && 0 <= j < w.len() && i != j && w[i].name is Some implies #[trigger] w[i].name
                != #[trigger] w[j].name by {
                if i < wi.len() && j < wi.len() {
                    assert(w[i] == wi[i] && w[j] == wi[j]);
                } else if i < wi.len() {
                    assert(w[i] == wi[i]);
                } else {
                    assert(w[j] == wi[j]);
                    if w[j].name is Some {
                    } else {
                    }
                }
            }
        }
    }
}

/// Inserting a Session keeps ids and Session Names unique among active Sessions.
pub proof fn lemma_insert_keeps_registry_well_formed(
    records: Seq<SessionRecordView>,
    record: SessionRecordView,
)
    requires
        registry_well_formed(records),
        insert_spec(records, record) is Ok,
    ensures
        registry_well_formed(insert_spec(records, record)->Ok_0),
{
    let w = without_id(records, record.id);
    lemma_without_id_well_formed(records, record.id);
    lemma_without_id(records, record.id);
    let s = w.push(record);
    assert forall|k: int| 0 <= k < w.len() implies (#[trigger] w[k]).id != record.id && (
    record.name is Some ==> w[k].name != record.name) by {
        let m = choose|m: int| 0 <= m < records.len() && records[m] == w[k];
        if record.name is Some && w[k].name == record.name {
            assert(name_taken(records, record.name->0, Some(record.id)));
        }
    }
    assert forall|i: int, j: int|
        0 <= i < s.len() && 0 <= j < s.len() && i != j implies #[trigger] s[i].id != #[trigger] s[j].id by {
        if i < w.len() && j < w.len() {
            assert(s[i] == w[i] && s[j] == w[j]);
        } else if i < w.len() {
            assert(s[i] == w[i]);
        } else {
            assert(s[j] == w[j]);
        }
    }
    assert forall|i: int, j: int|
        0 <= i < s.len() && 0 <= j < s.len() && i != j && s[i].name is Some implies #[trigger] s[i].name
        != #[trigger] s[j].name by {
        if i < w.len() && j < w.len() {
            assert(s[i] == w[i] && s[j] == w[j]);
        } else if i < w.len() {
            assert(s[i] == w[i]);
        } else {
            assert(s[j] == w[j]);
        }
    }
}

/// A Session that was inserted is found again by its Session ID, and (when it has
/// one) by its Session Name.
pub proof fn lemma_insert_then_resolve(
    records: Seq<SessionRecordView>,
    record: SessionRecordView,
    selector_name: Option<Seq<char>>,
)
    requires
        insert_spec(records, record) is Ok,
    ensures
        resolve_spec(insert_spec(records, record)->Ok_0, Some(record.id), selector_name) == Ok::<
            SessionRecordView,
            Seq<char>,
        >(record),
        record.name is Some ==> resolve_spec(
            insert_spec(records, record)->Ok_0,
            None,
            record.name,
        ) == Ok::<SessionRecordView, Seq<char>>(record),
{
    let w = without_id(records, record.id);
    lemma_without_id(records, record.id);
    let s = w.push(record);
    assert forall|j: int| 0 <= j < w.len() implies !has_id(record.id)(#[trigger] s[j]) by {
        assert(s[j] == w[j]);
    }
    lemma_first_where_at(s, has_id(record.id), w.len() as int);
    if record.name is Some {
        assert forall|j: int| 0 <= j < w.len() implies !has_name(record.name->0)(#[trigger] s[j]) by {
            assert(s[j] == w[j]);
            let m = choose|m: int| 0 <= m < records.len() && records[m] == w[j];
            if w[j].name == record.name {
                assert(name_taken(records, record.name->0, Some(record.id)));
            }
        }
        lemma_first_where_at(s, has_name(record.name->0), w.len() as int);
    }
}

proof fn lemma_without_absent_id(records: Seq<SessionRecordView>, id: Seq<char>)
    requires
        forall|k: int| 0 <= k < records.len() ==> (#[trigger] records[k]).id != id,
    ensures
        without_id(records, id) == records,
    decreases records.len(),
{
    if records.len() > 0 {
        assert(records.last() == records[records.len() - 1]);
        assert forall|k: int| 0 <= k < records.drop_last().len() implies (
        #[trigger] records.drop_last()[k]).id != id by {
            assert(records.drop_last()[k] == records[k]);
        }
        lemma_without_absent_id(records.drop_last(), id);
        assert(records.drop_last().push(records.last()) =~= records);
    }
}

/// Inserting the same record a second time changes nothing: the registry is as
/// one insert left it.
pub proof fn lemma_insert_twice(records: Seq<SessionRecordView>, record: SessionRecordView)
    requires
        insert_spec(records, record) is Ok,
    ensures
        insert_spec(insert_spec(records, record)->Ok_0, record) == insert_spec(records, record),
{
    let w = without_id(records, record.id);
    let s = w.push(record);
    lemma_without_id(records, record.id);
    if record.name is Some {
        let n = record.name->0;
        if name_taken(s, n, Some(record.id)) {
            let i = choose|i: int|
                0 <= i < s.len() && Some(record.id) != Some(#[trigger] s[i].id) && s[i].name == Some(n);
            assert(i < w.len());
            assert(s[i] == w[i]);
            let m = choose|m: int| 0 <= m < records.len() && records[m] == w[i];
            assert(name_taken(records, n, Some(record.id)));
        }
    }
    assert(s.drop_last() =~= w);
    lemma_without_absent_id(w, record.id);
}

/// Inserting is refused exactly when another active Session already carries the
/// new Session's name, and the refusal names it.
pub proof fn lemma_insert_refusal(records: Seq<SessionRecordView>, record: SessionRecordView)
    ensures
        (insert_spec(records, record) is Err) <==> (record.name is Some && name_taken(
            records,
            record.name->0,
            Some(record.id),
        )),
        insert_spec(records, record) is Err ==> insert_spec(records, record)->Err_0
            == name_taken_message(record.name->0),
{
}

/// After removing an id, no record carries it and every other record remains.
pub proof fn lemma_remove_forgets(records: Seq<SessionRecordView>, id: Seq<char>)
    ensures
        resolve_spec(without_id(records, id), Some(id), None) == Err::<SessionRecordView, Seq<char>>(
            no_session_id_message(id),
        ),
        forall|m: int|
            0 <= m < records.len() && (#[trigger] records[m]).id != id ==> without_id(
                records,
                id,
            ).contains(records[m]),
{
    lemma_without_id(records, id);
    lemma_first_where_none(without_id(records, id), has_id(id));
}

/// Removing a Session keeps ids and Session Names unique.
pub proof fn lemma_remove_keeps_registry_well_formed(records: Seq<SessionRecordView>, id: Seq<char>)
    requires
        registry_well_formed(records),
    ensures
        registry_well_formed(without_id(records, id)),
{
    lemma_without_id_well_formed(records, id);
}

/// Dropping the records whose supervisor is gone keeps ids and Session Names
/// unique: every record kept is one of the records, in their order.
pub proof fn lemma_keep_alive_keeps_registry_well_formed(records: Seq<SessionRecordView>, alive: Seq<bool>)
    requires
        registry_well_formed(records),
    ensures
        registry_well_formed(keep_alive(records, alive)),
        forall|k: int|
            0 <= k < keep_alive(records, alive).len() ==> exists|m: int|
                0 <= m < records.len() && records[m] == #[trigger] keep_alive(records, alive)[k],
    decreases records.len(),
{
    if records.len() > 0 && alive.len() > 0 {
        let init = records.drop_last();
        let last = records.last();
        let n = records.len() - 1;
        assert forall|i: int, j: int|
            0 <= i < init.len() && 0 <= j < init.len() && i != j implies #[trigger] init[i].id
            != #[trigger] init[j].id by {
            assert(init[i] == records[i] && init[j] == records[j]);
        }
        assert forall|i: int, j: int|
            0 <= i < init.len() && 0 <= j < init.len() && i != j && init[i].name is Some implies #[trigger] init[i].name
            != #[trigger] init[j].name by {
            assert(init[i] == records[i] && init[j] == records[j]);
        }
        lemma_keep_alive_keeps_registry_well_formed(init, alive.drop_last());
        let p = keep_alive(init, alive.drop_last());
        assert forall|k: int| 0 <= k < p.len() implies exists|m: int|
            0 <= m < records.len() && records[m] == #[trigger] p[k] by {
            let m = choose|m: int| 0 <= m < init.len() && init[m] == p[k];
            assert(records[m] == p[k]);
        }
        if alive.last() {
            let s = p.push(last);
            assert forall|k: int| 0 <= k < p.len() implies (#[trigger] p[k]).id != last.id && (p[k].name
                is Some ==> p[k].name != last.name) && (last.name is Some ==> last.name != p[k].name) by {
                let m = choose|m: int| 0 <= m < init.len() && init[m] == p[k];
                assert(records[m] == p[k] && records[n] == last && m != n);
            }
            assert forall|i: int, j: int|
                0 <= i < s.len() && 0 <= j < s.len() && i != j implies #[trigger] s[i].id != #[trigger] s[j].id by {
                if i < p.len() && j < p.len() {
                    assert(s[i] == p[i] && s[j] == p[j]);
                } else if i < p.len() {
                    assert(s[i] == p[i]);
                } else {
                    assert(s[j] == p[j]);
                }
            }
            assert forall|i: int, j: int|
                0 <= i < s.len() && 0 <= j < s.len() && i != j && s[i].name is Some implies #[trigger] s[i].name
                != #[trigger] s[j].name by {
                if i < p.len() && j < p.len() {
                    assert(s[i] == p[i] && s[j] == p[j]);
                } else if i < p.len() {
                    assert(s[i] == p[i]);
                } else {
                    assert(s[j] == p[j]);
                }
            }
            assert forall|k: int| 0 <= k < s.len() implies exists|m: int|
                0 <= m < records.len() && records[m] == #[trigger] s[k] by {
                if k < p.len() {
                    assert(s[k] == p[k]);
                } else {
                    assert(records[n] == s[k]);
                }
            }
        }
    }
}

/// With no selector, a target is found exactly when one Session is active.
pub proof fn lemma_implicit_target(records: Seq<SessionRecordView>)
    ensures
        (resolve_spec(records, None, None) is Ok) <==> records.len() == 1,
        records.len() == 1 ==> resolve_spec(records, None, None) == Ok::<
            SessionRecordView,
            Seq<char>,
        >(records[0]),
{
}

/// Updating a Session's record changes only that record; the registry stays
/// well formed when the new record's name is not carried by another Session.
pub proof fn lemma_update_replaces(records: Seq<SessionRecordView>, updated: SessionRecordView)
    requires
        registry_well_formed(records),
        update_spec(records, updated) is Ok,
        name_check(records, updated.name, Some(updated.id)) is Ok,
    ensures
        registry_well_formed(update_spec(records, updated)->Ok_0),
        resolve_spec(update_spec(records, updated)->Ok_0, Some(updated.id), None) == Ok::<
            SessionRecordView,
            Seq<char>,
        >(updated),
{
    lemma_first_where(records, has_id(updated.id));
    let i = first_where(records, has_id(updated.id))->0;
    let s = records.update(i, updated);
    assert forall|a: int, b: int|
        0 <= a < s.len() && 0 <= b < s.len() && a != b implies #[trigger] s[a].id != #[trigger] s[b].id by {
        if a == i {
            assert(records[i].id == updated.id);
        } else if b == i {
            assert(records[i].id == updated.id);
        }
    }
    assert forall|a: int, b: int|
        0 <= a < s.len() && 0 <= b < s.len() && a != b && s[a].name is Some implies #[trigger] s[a].name
        != #[trigger] s[b].name by {
        if a == i {
            if s[b].name == updated.name {
                assert(records[b].id != updated.id);
                assert(name_taken(records, updated.name->0, Some(updated.id)));
            }
        } else if b == i {
            if s[a].name == updated.name {
                assert(records[a].id != updated.id);
                assert(name_taken(records, updated.name->0, Some(updated.id)));
            }
        }
    }
    assert forall|j: int| 0 <= j < i implies !has_id(updated.id)(#[trigger] s[j]) by {
        assert(s[j] == records[j]);
    }
    lemma_first_where_at(s, has_id(updated.id), i);
}

} // verus!
