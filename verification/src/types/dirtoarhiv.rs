//! A directory to back up, with the files in it, and the paths that the
//! server derives from it.
use vstd::prelude::*;
use crate::types::DEFAULT_SERVER_STORE;
use crate::utils::paths::{
    file_name, file_name_spec, has_root, is_plain_name, lemma_parts_join_any, lemma_parts_last_piece,
    lemma_push_plain_name, path_parts, path_push, path_push_spec, path_starts_with,
};
use crate::utils::text::{push_char, trim_end, trim_end_spec};

verus! {

/// One entry of a directory.
#[derive(Debug)]
pub struct FileInfo {
    pub name: String,
    pub dir: bool,
    pub size: u64,
    pub date_mod: u64,
}

impl Clone for FileInfo {
    fn clone(&self) -> (r: Self)
        ensures
            r == *self,
    {
        FileInfo { name: self.name.clone(), dir: self.dir, size: self.size, date_mod: self.date_mod }
    }
}

/// `login@hostname@id`, the name under which the server knows a client.
pub open spec fn login_string_spec(login: Seq<char>, hostname: Seq<char>, id: Seq<char>) -> Seq<
    char,
> {
    login + seq!['@'] + hostname + seq!['@'] + id
}

/// Builds `login@hostname@id`.
pub fn make_login_string(login: &String, hostname: &String, id: &String) -> (r: String)
    ensures
        r@ == login_string_spec(login@, hostname@, id@),
{
    let mut r = login.clone();
    push_char(&mut r, '@');
    r.append(hostname.as_str());
    push_char(&mut r, '@');
    r.append(id.as_str());
    r
}

/// Whether the client's list `files` holds the server entry `f_s`: an entry
/// of the same kind whose name, without trailing white space, is `f_s`'s.
pub open spec fn listed_on_client(files: Seq<FileInfo>, f_s: FileInfo) -> bool {
    exists|i: int|
        #![trigger files[i]]
        0 <= i < files.len() && trim_end_spec(files[i].name@) == f_s.name@ && files[i].dir
            == f_s.dir
}

/// Whether the server's list `files` holds the client entry `f_c` unchanged:
/// `f_c` is a file, and an entry has its name without trailing white space,
/// its kind, its size and its date. Directories are never held unchanged.
pub open spec fn held_unchanged(files: Seq<FileInfo>, f_c: FileInfo) -> bool {
    !f_c.dir && exists|i: int|
        #![trigger files[i]]
        0 <= i < files.len() && files[i].name@ == trim_end_spec(f_c.name@) && files[i].dir
            == f_c.dir && files[i].size == f_c.size && files[i].date_mod == f_c.date_mod
}

impl FileInfo {
    /// Whether this entry is the marker that ends a list of entries.
    pub open spec fn is_stop_spec(&self) -> bool {
        self.dir && self.size == 111 && self.name@ == "stop"@
    }

    /// Whether this entry is what `new_stop` makes.
    pub open spec fn is_new_stop(&self) -> bool {
        self.dir && self.size == 111 && self.date_mod == 0 && self.name@ == "stop"@
    }

    /// The marker that ends a list of entries.
    pub fn new_stop() -> (r: Self)
        ensures
            r.is_new_stop(),
    {
        FileInfo { dir: true, name: "stop".to_owned(), size: 111, date_mod: 0 }
    }

    /// Whether this entry is the marker that ends a list of entries.
    pub fn is_stop(&self) -> (b: bool)
        ensures
            b == self.is_stop_spec(),
    {
        if self.dir && self.size == 111 && self.name == "stop".to_owned() {
            return true;
        }
        false
    }
}

/// The marker that `new_stop` makes is taken for a marker by `is_stop`.
pub proof fn lemma_new_stop_is_stop(f: FileInfo)
    requires
        f.is_new_stop(),
    ensures
        f.is_stop_spec(),
{
}

/// A job's end marker is recognized as one: a list that holds just the
/// entry `FileInfo::new_stop` makes is what `is_stop` looks for.
pub proof fn lemma_new_stop_job_is_stop(d: DirToArhiv)
    requires
        d.files@.len() == 1,
        d.files@[0].is_new_stop(),
    ensures
        d.is_stop_spec(),
{
}

/// A directory to back up: where it stands on the client (`base` joined with
/// `path`), under which name the server files it (`alias`), what it holds,
/// and which client sends it.
#[derive(Debug)]
pub struct DirToArhiv {
    pub base: String,
    pub alias: String,
    pub path: String,
    pub files: Vec<FileInfo>,
    pub login: String,
    pub id: String,
    pub hostname: String,
}

/// What moving an entry to the versions involves.
#[derive(Debug)]
pub struct VersionPaths {
    /// Where the entry is now.
    pub from: String,
    /// Where it goes.
    pub to: String,
    /// Whether `from` is to be resolved again through its directory.
    pub reresolve: bool,
}

/// A copy of a list of entries.
pub fn copy_files(files: &Vec<FileInfo>) -> (r: Vec<FileInfo>)
    ensures
        r@ == files@,
{
    let mut r: Vec<FileInfo> = Vec::new();
    let mut i: usize = 0;
    while i < files.len()
        invariant
            i <= files@.len(),
            r@ == files@.take(i as int),
        decreases files@.len() - i,
    {
        r.push(files[i].clone());
        assert(files@.take(i + 1) =~= files@.take(i as int).push(files@[i as int]));
        i = i + 1;
    }
    assert(files@.take(files@.len() as int) =~= files@);
    r
}

impl Clone for DirToArhiv {
    fn clone(&self) -> (r: Self)
        ensures
            r.base == self.base,
            r.alias == self.alias,
            r.path == self.path,
            r.files@ == self.files@,
            r.login == self.login,
            r.id == self.id,
            r.hostname == self.hostname,
    {
        DirToArhiv {
            base: self.base.clone(),
            alias: self.alias.clone(),
            path: self.path.clone(),
            files: copy_files(&self.files),
            login: self.login.clone(),
            id: self.id.clone(),
            hostname: self.hostname.clone(),
        }
    }
}

impl DirToArhiv {
    /// The name under which the server knows the client.
    pub open spec fn login_string_view(&self) -> Seq<char> {
        login_string_spec(self.login@, self.hostname@, self.id@)
    }

    /// The server's directory for the job of kind `d`:
    /// `_SYNC_/<login string>.<d>/<alias>`.
    pub open spec fn server_task_dir_spec(&self, d: Seq<char>) -> Seq<char> {
        path_push_spec(
            path_push_spec(DEFAULT_SERVER_STORE@, self.login_string_view() + seq!['.'] + d),
            self.alias@,
        )
    }

    /// Where the server keeps the replaced versions of the job's files.
    pub open spec fn base_version_dir_spec(&self) -> Seq<char> {
        self.server_task_dir_spec("version"@)
    }

    /// Where the server keeps the current copy of the job's files.
    pub open spec fn base_sync_dir_spec(&self) -> Seq<char> {
        self.server_task_dir_spec("sync"@)
    }

    /// The directory itself: `base` joined with `path`.
    pub open spec fn full_dir_spec(&self) -> Seq<char> {
        path_push_spec(self.base@, self.path@)
    }

    /// The path of the entry `f` in the directory.
    pub open spec fn full_file_spec(&self, f: FileInfo) -> Seq<char> {
        path_push_spec(self.full_dir_spec(), f.name@)
    }

    /// Where the replaced versions of entries of this directory go.
    pub open spec fn vers_dir_spec(&self) -> Seq<char> {
        path_push_spec(self.base_version_dir_spec(), self.path@)
    }

    /// Where the version of `f` dated `stamp` goes: `<name>.<stamp>` in `vers_dir`.
    pub open spec fn vers_file_spec(&self, f: FileInfo, stamp: Seq<char>) -> Seq<char> {
        path_push_spec(self.vers_dir_spec(), f.name@ + seq!['.'] + stamp)
    }

    /// Whether the client lists `f_s` (a server entry), the client's names
    /// taken without trailing white space.
    pub open spec fn is_exist_on_client_spec(&self, f_s: FileInfo) -> bool {
        listed_on_client(self.files@, f_s)
    }

    /// Whether `f_c` (a client entry) is a file that this list holds unchanged.
    pub open spec fn is_file_eq_spec(&self, f_c: FileInfo) -> bool {
        held_unchanged(self.files@, f_c)
    }

    /// Whether this is the marker that ends a session.
    pub open spec fn is_stop_spec(&self) -> bool {
        self.files@.len() == 1 && self.files@[0].is_stop_spec()
    }

    /// The name under which the server knows the client.
    pub fn login_string(&self) -> (r: String)
        ensures
            r@ == self.login_string_view(),
    {
        make_login_string(&self.login, &self.hostname, &self.id)
    }

    /// The server's directory for the job of kind `d`.
    pub fn get_server_task_dir(&self, d: &str) -> (r: String)
        ensures
            r@ == self.server_task_dir_spec(d@),
    {
        let mut name = self.login_string();
        push_char(&mut name, '.');
        name.append(d);
        let p = path_push(DEFAULT_SERVER_STORE, name.as_str());
        path_push(p.as_str(), self.alias.as_str())
    }

    /// Where the server keeps the replaced versions of the job's files.
    pub fn base_version_dir(&self) -> (r: String)
        ensures
            r@ == self.base_version_dir_spec(),
    {
        self.get_server_task_dir("version")
    }

    /// Where the server keeps the current copy of the job's files.
    pub fn base_sync_dir(&self) -> (r: String)
        ensures
            r@ == self.base_sync_dir_spec(),
    {
        self.get_server_task_dir("sync")
    }

    /// The directory itself.
    pub fn full_dir(&self) -> (r: String)
        ensures
            r@ == self.full_dir_spec(),
    {
        path_push(self.base.as_str(), self.path.as_str())
    }

    /// The path of the entry `f_s` in the directory.
    pub fn full_file(&self, f_s: &FileInfo) -> (r: String)
        ensures
            r@ == self.full_file_spec(*f_s),
    {
        let d = self.full_dir();
        path_push(d.as_str(), f_s.name.as_str())
    }

    /// Where the replaced versions of entries of this directory go.
    pub fn vers_dir(&self) -> (r: String)
        ensures
            r@ == self.vers_dir_spec(),
    {
        let d = self.base_version_dir();
        path_push(d.as_str(), self.path.as_str())
    }

    /// Where the version of `f_s` dated `stamp` goes: `<name>.<stamp>` in
    /// `vers_dir`. The server dates versions with the day they are made,
    /// written `YYYY-MM-DD` in UTC.
    pub fn vers_file(&self, f_s: &FileInfo, stamp: &str) -> (r: String)
        ensures
            r@ == self.vers_file_spec(*f_s, stamp@),
    {
        let d = self.vers_dir();
        let mut name = f_s.name.clone();
        push_char(&mut name, '.');
        name.append(stamp);
        path_push(d.as_str(), name.as_str())
    }

    /// What moving the entry `f` to the versions, dated `stamp`, involves:
    /// the path it is taken from, the path it goes to, and whether its name
    /// ends in white space, in which case the path it is taken from is
    /// resolved again through its directory's real path, the name kept as it is.
    pub fn version_paths(&self, f: &FileInfo, stamp: &str) -> (r: VersionPaths)
        ensures
            r.from@ == self.full_file_spec(*f),
            r.to@ == self.vers_file_spec(*f, stamp@),
            r.reresolve == (f.name@ != trim_end_spec(f.name@)),
    {
        let from = self.full_file(f);
        let to = self.vers_file(f, stamp);
        let trimmed = trim_end(f.name.as_str());
        VersionPaths { from, to, reresolve: f.name != trimmed }
    }

    /// Whether the client lists the server entry `f_s`.
    pub fn is_exist_on_client(&self, f_s: &FileInfo) -> (b: bool)
        ensures
            b == self.is_exist_on_client_spec(*f_s),
    {
        let mut i: usize = 0;
        while i < self.files.len()
            invariant
                i <= self.files@.len(),
                forall|j: int|
                    #![trigger self.files@[j]]
                    0 <= j < i ==> !(trim_end_spec(self.files@[j].name@) == f_s.name@
                        && self.files@[j].dir == f_s.dir),
            decreases self.files@.len() - i,
        {
            let f_c = &self.files[i];
            if trim_end(f_c.name.as_str()) == f_s.name && f_c.dir == f_s.dir {
                return true;
            }
            i = i + 1;
        }
        false
    }

    /// Whether the client entry `f_c` is a file that this list holds unchanged.
    pub fn is_file_eq(&self, f_c: &FileInfo) -> (b: bool)
        ensures
            b == self.is_file_eq_spec(*f_c),
    {
        if f_c.dir {
            return false;
        }
        let trimmed = trim_end(f_c.name.as_str());
        let mut i: usize = 0;
        while i < self.files.len()
            invariant
                i <= self.files@.len(),
                trimmed@ == trim_end_spec(f_c.name@),
                !f_c.dir,
                forall|j: int|
                    #![trigger self.files@[j]]
                    0 <= j < i ==> !(self.files@[j].name@ == trim_end_spec(f_c.name@)
                        && self.files@[j].dir == f_c.dir && self.files@[j].size == f_c.size
                        && self.files@[j].date_mod == f_c.date_mod),
            decreases self.files@.len() - i,
        {
            let f_s = &self.files[i];
            if f_s.name == trimmed && f_s.dir == f_c.dir && f_s.size == f_c.size && f_s.date_mod
                == f_c.date_mod {
                let ghost k = i as int;
                assert(*f_s == self.files@[k]);
                assert(self.files@[k].name@ == trim_end_spec(f_c.name@) && self.files@[k].dir
                    == f_c.dir && self.files@[k].size == f_c.size && self.files@[k].date_mod
                    == f_c.date_mod);
                assert(self.is_file_eq_spec(*f_c));
                return true;
            }
            i = i + 1;
        }
        false
    }

    /// A task for the directory `pp` under `bb`, filed under `a`, or under the
    /// last part of `bb` when `a` is empty.
    pub fn new(
        bb: String,
        pp: String,
        a: &String,
        login: &String,
        id: &String,
        hostname: &String,
    ) -> (r: DirToArhiv)
        requires
            a@.len() == 0 ==> file_name_spec(bb@) is Some,
        ensures
            r.base == bb,
            r.path == pp,
            r.alias@ == (if a@.len() == 0 {
                file_name_spec(bb@)->0
            } else {
                a@
            }),
            r.files@.len() == 0,
            r.login@ == login@,
            r.id@ == id@,
            r.hostname@ == hostname@,
    {
        let alias = if a.as_str().is_empty() {
            match file_name(bb.as_str()) {
                Some(n) => n,
                None => a.clone(),
            }
        } else {
            a.clone()
        };
        DirToArhiv {
            base: bb,
            path: pp,
            alias,
            files: Vec::new(),
            login: login.clone(),
            id: id.clone(),
            hostname: hostname.clone(),
        }
    }

    /// The marker that ends a session.
    pub fn new_stop(login: String, id: String, hostname: String) -> (r: Self)
        ensures
            r.base@.len() == 0,
            r.path@.len() == 0,
            r.alias@.len() == 0,
            r.files@.len() == 1,
            r.files@[0].is_new_stop(),
            r.login == login,
            r.id == id,
            r.hostname == hostname,
    {
        let mut files: Vec<FileInfo> = Vec::new();
        files.push(FileInfo::new_stop());
        DirToArhiv {
            base: String::new(),
            path: String::new(),
            alias: String::new(),
            login,
            id,
            hostname,
            files,
        }
    }

    /// Whether this is the marker that ends a session.
    pub fn is_stop(&self) -> (b: bool)
        ensures
            b == self.is_stop_spec(),
    {
        if self.files.len() == 1 {
            if self.files[0].is_stop() {
                return true;
            }
        }
        false
    }
}

/// The server's two stores of a job are apart: the directory of current
/// copies and the directory of versions are different, and neither lies
/// inside the other, when the job's alias is a relative path.
pub proof fn lemma_stores_apart(d: DirToArhiv)
    requires
        !has_root(d.alias@),
    ensures
        d.base_sync_dir_spec() != d.base_version_dir_spec(),
        !path_starts_with(d.base_sync_dir_spec(), d.base_version_dir_spec()),
        !path_starts_with(d.base_version_dir_spec(), d.base_sync_dir_spec()),
{
    reveal_strlit("_SYNC_");
    reveal_strlit("sync");
    reveal_strlit("version");
    let x = DEFAULT_SERVER_STORE@;
    assert(x == "_SYNC_"@);
    let l = d.login_string_view();
    let ds = "sync"@;
    let dv = "version"@;
    let rooted = l.len() > 0 && l[0] == '/';
    let q = if rooted { l + seq!['.'] } else { x + seq!['/'] + l + seq!['.'] };
    assert(path_push_spec(x, l + seq!['.'] + ds) =~= q + ds);
    assert(path_push_spec(x, l + seq!['.'] + dv) =~= q + dv);
    let a1 = q + ds;
    let a2 = q + dv;
    let alias = d.alias@;
    assert(a1.last() == 'c' && a2.last() == 'n');
    assert(d.base_sync_dir_spec() == a1 + seq!['/'] + alias);
    assert(d.base_version_dir_spec() == a2 + seq!['/'] + alias);
    lemma_parts_join_any(a1, alias);
    lemma_parts_join_any(a2, alias);
    lemma_parts_last_piece(q, ds, dv);
    let p1 = path_parts(d.base_sync_dir_spec());
    let p2 = path_parts(d.base_version_dir_spec());
    let n = path_parts(a1).len();
    assert(p1.len() == p2.len());
    assert(p1[n - 1] == path_parts(a1)[n - 1]);
    assert(p2[n - 1] == path_parts(a2)[n - 1]);
    assert(p1[n - 1] != p2[n - 1]);
    assert(!path_starts_with(d.base_sync_dir_spec(), d.base_version_dir_spec())) by {
        if path_starts_with(d.base_sync_dir_spec(), d.base_version_dir_spec()) {
            assert(p1.take(p2.len() as int)[n - 1] == p1[n - 1]);
        }
    }
    assert(!path_starts_with(d.base_version_dir_spec(), d.base_sync_dir_spec())) by {
        if path_starts_with(d.base_version_dir_spec(), d.base_sync_dir_spec()) {
            assert(p2.take(p1.len() as int)[n - 1] == p2[n - 1]);
        }
    }
}

/// The path of an entry with a plain name is the directory's path with that
/// name as one more, last, part: its parent is `full_dir`, and its file name
/// is the entry's name, trailing white space included.
pub proof fn lemma_full_file_in_full_dir(d: DirToArhiv, f: FileInfo)
    requires
        is_plain_name(f.name@),
    ensures
        path_parts(d.full_file_spec(f)) == path_parts(d.full_dir_spec()).push(f.name@),
        file_name_spec(d.full_file_spec(f)) == Some(f.name@),
{
    lemma_push_plain_name(d.full_dir_spec(), f.name@);
}

} // verus!
