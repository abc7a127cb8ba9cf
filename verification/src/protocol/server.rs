//! The server's decisions: the handshake checks, which program a client
//! needs, the client's settings file, and what a backup round keeps,
//! versions and asks for.
use vstd::prelude::*;
use vstd::utf8::encode_utf8;
use crate::protocol::net::NetError;
use crate::types::{DEFAULT_SERVER_STORE, FILE_CONFIG_SEPARATOR, FILE_LOG, MAGIC_NUMBER};
use crate::types::configsrv::ConfigSrv;
use crate::types::dirtoarhiv::{held_unchanged, listed_on_client, DirToArhiv, FileInfo};
use crate::utils::listdirs::{trim_endspaces_in_files, trim_endspaces_spec};
use crate::utils::paths::{path_push, path_push_spec};
use crate::utils::text::{find, find_spec, string_of, to_chars, trim_end, trim_end_spec};

verus! {

/// Whether the greeting a client sent is the expected one.
pub fn check_magic(msg: &str) -> (b: bool)
    ensures
        b == (msg@ == MAGIC_NUMBER@),
{
    let expected = MAGIC_NUMBER.to_owned();
    let got = msg.to_owned();
    got == expected
}

/// Whether two byte strings are equal.
pub fn bytes_equal(a: &[u8], b: &[u8]) -> (r: bool)
    ensures
        r == (a@ == b@),
{
    if a.len() != b.len() {
        return false;
    }
    let mut i: usize = 0;
    while i < a.len()
        invariant
            i <= a@.len(),
            a@.len() == b@.len(),
            forall|j: int| 0 <= j < i ==> a@[j] == b@[j],
        decreases a@.len() - i,
    {
        if a[i] != b[i] {
            return false;
        }
        i = i + 1;
    }
    assert(a@ =~= b@);
    true
}

/// Whether a client on system `win_lin` (1 for Windows, 2 for Linux) whose
/// program has digest `rcv` must be sent the current program: unless the
/// digest is that of the program for its system, or the one that stands for
/// "any program". Any other system is refused.
pub fn update_needed(cfg: &ConfigSrv, win_lin: u8, rcv: &[u8]) -> (r: Result<bool, NetError>)
    requires
        win_lin == 1 || win_lin == 2 ==> rcv@.len() == 16,
    ensures
        win_lin != 1 && win_lin != 2 ==> (r matches Err(e) && e is InvalidData),
        win_lin == 1 ==> (r matches Ok(b) && b == !(rcv@ == cfg.win_md5@ || rcv@
            == cfg.non_md5@)),
        win_lin == 2 ==> (r matches Ok(b) && b == !(rcv@ == cfg.lin_md5@ || rcv@
            == cfg.non_md5@)),
{
    let match_md5: &[u8; 16] = if win_lin == 1 {
        &cfg.win_md5
    } else if win_lin == 2 {
        &cfg.lin_md5
    } else {
        return Err(NetError::InvalidData);
    };
    let same = bytes_equal(rcv, match_md5.as_slice()) || bytes_equal(rcv, cfg.non_md5.as_slice());
    Ok(!same)
}

/// Whether what a client sent at login asks for a new id.
pub fn is_id_request(auth: &str) -> (b: bool)
    ensures
        b == (auth@ == seq!['?']),
{
    let v = to_chars(auth);
    let r = v.len() == 1 && v[0] == '?';
    assert(r ==> v@ =~= seq!['?']);
    r
}

/// Where the server keeps the settings file of the client known as `auth`.
pub fn client_config_path(auth: &str) -> (r: String)
    ensures
        r@ == path_push_spec(DEFAULT_SERVER_STORE@, auth@),
{
    path_push(DEFAULT_SERVER_STORE, auth)
}

/// The administrator's part of a client's settings file: what stands before
/// the separator, or the whole text when there is none, and a single space
/// instead of nothing.
pub open spec fn config_head_spec(old: Seq<char>) -> Seq<char> {
    let part1 = match find_spec(old, FILE_CONFIG_SEPARATOR@) {
        Some(p) => old.take(p),
        None => old,
    };
    if part1.len() == 0 {
        seq![' ']
    } else {
        part1
    }
}

/// The administrator's part of a client's settings file, `old` being the
/// file's text (empty when it could not be read).
pub fn config_head(old: &str) -> (r: String)
    ensures
        r@ == config_head_spec(old@),
{
    let v = to_chars(old);
    let sep = to_chars(FILE_CONFIG_SEPARATOR);
    let pos = match find(v.as_slice(), sep.as_slice()) {
        Some(p) => {
            proof {
                lemma_find_bounds(v@, sep@, 0);
            }
            p
        },
        None => v.len(),
    };
    assert(v@.take(v@.len() as int) =~= v@);
    assert(v@.subrange(0, pos as int) =~= v@.take(pos as int));
    if pos == 0 {
        let mut s = String::new();
        crate::utils::text::push_char(&mut s, ' ');
        assert(s@ =~= seq![' ']);
        return s;
    }
    string_of(v.as_slice(), 0, pos)
}

/// Where `find_from` can land.
proof fn lemma_find_bounds(h: Seq<char>, p: Seq<char>, i: int)
    requires
        0 <= i,
    ensures
        find_from_some_in_range(h, p, i),
    decreases h.len() + 1 - i,
{
    if i + p.len() <= h.len() && !crate::utils::text::matches_at(h, p, i) {
        lemma_find_bounds(h, p, i + 1);
    }
}

/// Where `find_from` can land: a match inside `h`, with none before it.
pub open spec fn find_from_some_in_range(h: Seq<char>, p: Seq<char>, i: int) -> bool {
    match crate::utils::text::find_from(h, p, i) {
        Some(k) => i <= k && k + p.len() <= h.len() && crate::utils::text::matches_at(h, p, k)
            && forall|j: int| i <= j < k ==> !crate::utils::text::matches_at(h, p, j),
        None => forall|j: int| i <= j ==> !crate::utils::text::matches_at(h, p, j),
    }
}

/// The bytes of a client's settings file: the administrator's part, then the
/// directories that the client sent.
pub fn client_config_file(head: &str, dirs: &[u8]) -> (r: Vec<u8>)
    ensures
        r@ == encode_utf8(head@) + dirs@,
{
    let hb = head.as_bytes();
    let mut r: Vec<u8> = Vec::new();
    let mut i: usize = 0;
    while i < hb.len()
        invariant
            i <= hb@.len(),
            hb@ == encode_utf8(head@),
            r@ == hb@.take(i as int),
        decreases hb@.len() - i,
    {
        r.push(hb[i]);
        assert(hb@.take(i + 1) =~= hb@.take(i as int).push(hb@[i as int]));
        i = i + 1;
    }
    let mut j: usize = 0;
    while j < dirs.len()
        invariant
            j <= dirs@.len(),
            hb@ == encode_utf8(head@),
            r@ == hb@ + dirs@.take(j as int),
        decreases dirs@.len() - j,
    {
        r.push(dirs[j]);
        assert(dirs@.take(j + 1) =~= dirs@.take(j as int).push(dirs@[j as int]));
        j = j + 1;
    }
    assert(hb@.take(hb@.len() as int) =~= hb@);
    assert(dirs@.take(dirs@.len() as int) =~= dirs@);
    r
}

/// The separator holds a carriage return at its start and nowhere else.
proof fn lemma_separator_shape()
    ensures
        FILE_CONFIG_SEPARATOR@.len() > 1,
        FILE_CONFIG_SEPARATOR@[0] == '\r',
        forall|k: int| 0 < k < FILE_CONFIG_SEPARATOR@.len() ==> FILE_CONFIG_SEPARATOR@[k] != '\r',
{
    reveal_strlit(
        "\r\n-------------@@@----------SEPARATOR DO NOT EDIT----------@@@-------------",
    );
}

/// The administrator's part of a settings file survives a login: a file made
/// of that part, the separator and whatever the client sent gives back the
/// same part.
pub proof fn lemma_config_head_stable(old: Seq<char>, rest: Seq<char>)
    ensures
        config_head_spec(config_head_spec(old) + FILE_CONFIG_SEPARATOR@ + rest)
            == config_head_spec(old),
{
    let sep = FILE_CONFIG_SEPARATOR@;
    let h = config_head_spec(old);
    let t = h + sep + rest;
    lemma_separator_shape();
    lemma_find_bounds(old, sep, 0);
    // The head holds no separator.
    assert forall|j: int| 0 <= j && j + sep.len() <= h.len() implies !crate::utils::text::matches_at(
        h,
        sep,
        j,
    ) by {
        if crate::utils::text::matches_at(h, sep, j) {
            if h == seq![' '] {
                assert(h[j] == sep[0]);
            } else {
                match find_spec(old, sep) {
                    Some(p) => {
                        assert(h =~= old.take(p));
                        assert(old.subrange(j, j + sep.len()) =~= h.subrange(j, j + sep.len()));
                        assert(crate::utils::text::matches_at(old, sep, j));
                    },
                    None => {
                        assert(h == old);
                    },
                }
            }
        }
    }
    // No separator starts before the end of the head in the joined text.
    assert forall|j: int| 0 <= j < h.len() implies !crate::utils::text::matches_at(t, sep, j) by {
        if crate::utils::text::matches_at(t, sep, j) {
            if j + sep.len() <= h.len() {
                assert(t.subrange(j, j + sep.len()) =~= h.subrange(j, j + sep.len()));
                assert(crate::utils::text::matches_at(h, sep, j));
            } else {
                let k = h.len() - j;
                assert(t.subrange(j, j + sep.len())[k] == t[h.len() as int]);
                assert(t[h.len() as int] == sep[0]);
                assert(t.subrange(j, j + sep.len()) == sep);
                assert(sep[k] == '\r');
                assert(0 < k < sep.len());
            }
        }
    }
    assert(crate::utils::text::matches_at(t, sep, h.len() as int)) by {
        assert(t.subrange(h.len() as int, (h.len() + sep.len()) as int) =~= sep);
    }
    lemma_find_from_first(t, sep, 0, h.len() as int);
    assert(t.take(h.len() as int) =~= h);
}

/// `find_from` lands on the first match.
proof fn lemma_find_from_first(h: Seq<char>, p: Seq<char>, i: int, k: int)
    requires
        0 <= i <= k,
        crate::utils::text::matches_at(h, p, k),
        forall|j: int| i <= j < k ==> !crate::utils::text::matches_at(h, p, j),
    ensures
        crate::utils::text::find_from(h, p, i) == Some(k),
    decreases k - i,
{
    if i < k {
        lemma_find_from_first(h, p, i + 1, k);
    }
}

/// What the server does with a directory that a client sent.
#[derive(Debug)]
pub struct LocalTaskPlan {
    /// The server's entries that the client still lists: they stay.
    pub stay: Vec<FileInfo>,
    /// The server's entries that the client no longer lists: they are moved
    /// to the versions.
    pub to_version: Vec<FileInfo>,
    /// The client's entries that the server does not hold unchanged: the
    /// client is asked to send them.
    pub to_upload: Vec<FileInfo>,
}

/// The server's side of a directory that a client sent: the same task,
/// placed under the server's directory for current copies, its path cut of
/// trailing white space part by part.
pub fn server_files_view(client: &DirToArhiv) -> (r: DirToArhiv)
    ensures
        r.base@ == client.base_sync_dir_spec(),
        r.path@ == trim_endspaces_spec(client.path@),
        r.alias == client.alias,
        r.files@ == client.files@,
        r.login == client.login,
        r.id == client.id,
        r.hostname == client.hostname,
{
    let mut out = client.clone();
    out.base = client.base_sync_dir();
    out.path = trim_endspaces_in_files(client.path.as_str());
    out
}

/// Splits a list by a predicate on its entries, keeping their order.
fn partition_listed(client: &DirToArhiv, server_files: &Vec<FileInfo>) -> (r: (
    Vec<FileInfo>,
    Vec<FileInfo>,
))
    ensures
        r.0@ == server_files@.filter(|f: FileInfo| listed_on_client(client.files@, f)),
        r.1@ == server_files@.filter(|f: FileInfo| !listed_on_client(client.files@, f)),
{
    let ghost keep = |f: FileInfo| listed_on_client(client.files@, f);
    let ghost drop = |f: FileInfo| !listed_on_client(client.files@, f);
    let mut stay: Vec<FileInfo> = Vec::new();
    let mut gone: Vec<FileInfo> = Vec::new();
    let mut i: usize = 0;
    while i < server_files.len()
        invariant
            i <= server_files@.len(),
            keep == (|f: FileInfo| listed_on_client(client.files@, f)),
            drop == (|f: FileInfo| !listed_on_client(client.files@, f)),
            stay@ == server_files@.take(i as int).filter(keep),
            gone@ == server_files@.take(i as int).filter(drop),
        decreases server_files@.len() - i,
    {
        reveal_with_fuel(Seq::<_>::filter, 1);
        let f = &server_files[i];
        assert(server_files@.take(i + 1).drop_last() =~= server_files@.take(i as int));
        if client.is_exist_on_client(f) {
            stay.push(f.clone());
        } else {
            gone.push(f.clone());
        }
        i = i + 1;
    }
    assert(server_files@.take(server_files@.len() as int) =~= server_files@);
    (stay, gone)
}

/// What a backup round does with a directory: of the server's entries
/// (`server_files`, listed in its copy), those the client still lists stay
/// and the others go to the versions; of the client's entries, those that the
/// staying ones do not hold unchanged are asked for. Order is kept throughout.
pub fn plan_local_task(client: &DirToArhiv, server_files: &Vec<FileInfo>) -> (r: LocalTaskPlan)
    ensures
        r.stay@ == server_files@.filter(|f: FileInfo| listed_on_client(client.files@, f)),
        r.to_version@ == server_files@.filter(|f: FileInfo| !listed_on_client(client.files@, f)),
        r.to_upload@ == client.files@.filter(|f: FileInfo| !held_unchanged(r.stay@, f)),
{
    let (stay, to_version) = partition_listed(client, server_files);
    let held = DirToArhiv {
        base: String::new(),
        alias: String::new(),
        path: String::new(),
        files: stay,
        login: String::new(),
        id: String::new(),
        hostname: String::new(),
    };
    let ghost pred = |f: FileInfo| !held_unchanged(held.files@, f);
    let mut to_upload: Vec<FileInfo> = Vec::new();
    let mut i: usize = 0;
    while i < client.files.len()
        invariant
            i <= client.files@.len(),
            pred == (|f: FileInfo| !held_unchanged(held.files@, f)),
            to_upload@ == client.files@.take(i as int).filter(pred),
        decreases client.files@.len() - i,
    {
        reveal_with_fuel(Seq::<_>::filter, 1);
        let f_c = &client.files[i];
        assert(client.files@.take(i + 1).drop_last() =~= client.files@.take(i as int));
        if !held.is_file_eq(f_c) {
            to_upload.push(f_c.clone());
        }
        i = i + 1;
    }
    assert(client.files@.take(client.files@.len() as int) =~= client.files@);
    LocalTaskPlan { stay: held.files, to_version, to_upload }
}

/// A list split by a predicate loses nothing: the entries kept and the
/// entries left out are as many as the list holds.
pub proof fn lemma_filter_partition(s: Seq<FileInfo>, p: spec_fn(FileInfo) -> bool)
    ensures
        s.filter(p).len() + s.filter(|f: FileInfo| !p(f)).len() == s.len(),
    decreases s.len(),
{
    reveal_with_fuel(Seq::<_>::filter, 1);
    if s.len() > 0 {
        lemma_filter_partition(s.drop_last(), p);
    }
}

/// Every entry the server holds for a directory either stays or goes to the
/// versions: none is dropped, none is counted twice.
pub proof fn lemma_plan_keeps_every_server_entry(client: DirToArhiv, server_files: Seq<FileInfo>)
    ensures
        server_files.filter(|f: FileInfo| listed_on_client(client.files@, f)).len()
            + server_files.filter(|f: FileInfo| !listed_on_client(client.files@, f)).len()
            == server_files.len(),
{
    let p = |f: FileInfo| listed_on_client(client.files@, f);
    lemma_filter_partition(server_files, p);
    assert((|f: FileInfo| !p(f)) == (|f: FileInfo| !listed_on_client(client.files@, f)));
}

/// A directory of the client is always asked for, whatever the server holds.
pub proof fn lemma_directories_always_sent(stay: Seq<FileInfo>, f: FileInfo)
    requires
        f.dir,
    ensures
        !held_unchanged(stay, f),
{
}

/// Which server entries a round keeps: an entry stays exactly when the
/// client lists an entry of the same kind whose name, trailing white space
/// cut, is the entry's name; every other entry is moved to the versions.
pub proof fn lemma_stay_rule(client_files: Seq<FileInfo>, server_files: Seq<FileInfo>, e: FileInfo)
    requires
        server_files.contains(e),
    ensures
        server_files.filter(|f: FileInfo| listed_on_client(client_files, f)).contains(e) <==> exists|
            i: int,
        |
            0 <= i < client_files.len() && trim_end_spec(#[trigger] client_files[i].name@) == e.name@
                && client_files[i].dir == e.dir,
        server_files.filter(|f: FileInfo| !listed_on_client(client_files, f)).contains(e) <==> !exists|
            i: int,
        |
            0 <= i < client_files.len() && trim_end_spec(#[trigger] client_files[i].name@) == e.name@
                && client_files[i].dir == e.dir,
{
    broadcast use vstd::seq_lib::group_filter_ensures;

    if exists|i: int|
        0 <= i < client_files.len() && trim_end_spec(#[trigger] client_files[i].name@) == e.name@
            && client_files[i].dir == e.dir {
        let i = choose|i: int|
            0 <= i < client_files.len() && trim_end_spec(#[trigger] client_files[i].name@)
                == e.name@ && client_files[i].dir == e.dir;
        assert(client_files[i] == client_files[i]);
        assert(listed_on_client(client_files, e));
    } else {
        assert(!listed_on_client(client_files, e)) by {
            if listed_on_client(client_files, e) {
                let i = choose|i: int|
                    #![trigger client_files[i]]
                    0 <= i < client_files.len() && trim_end_spec(client_files[i].name@) == e.name@
                        && client_files[i].dir == e.dir;
                assert(trim_end_spec(client_files[i].name@) == e.name@);
            }
        }
    }
}

/// Which client entries a round asks for, given the server's entries that
/// stay: a client file is asked for unless some entry that stays has its
/// name (trailing white space cut), its kind, its size and its date; so a
/// file whose size changed is sent again though its date is the same, and a
/// file that one entry holds exactly is not sent. Directories are always sent.
pub proof fn lemma_upload_rule(client_files: Seq<FileInfo>, stay: Seq<FileInfo>, f_c: FileInfo)
    requires
        client_files.contains(f_c),
    ensures
        f_c.dir ==> client_files.filter(|f: FileInfo| !held_unchanged(stay, f)).contains(f_c),
        (forall|i: int|
            0 <= i < stay.len() ==> !(#[trigger] stay[i].name@ == trim_end_spec(f_c.name@)
                && stay[i].dir == f_c.dir && stay[i].size == f_c.size && stay[i].date_mod
                == f_c.date_mod)) ==> client_files.filter(|f: FileInfo| !held_unchanged(stay, f)).contains(f_c),
        (!f_c.dir && exists|i: int|
            0 <= i < stay.len() && #[trigger] stay[i].name@ == trim_end_spec(f_c.name@)
                && stay[i].dir == f_c.dir && stay[i].size == f_c.size && stay[i].date_mod
                == f_c.date_mod) ==> !client_files.filter(|f: FileInfo| !held_unchanged(stay, f)).contains(f_c),
{
    let pred = |f: FileInfo| !held_unchanged(stay, f);
    broadcast use vstd::seq_lib::group_filter_ensures;
    if (forall|i: int|
        0 <= i < stay.len() ==> !(#[trigger] stay[i].name@ == trim_end_spec(f_c.name@)
            && stay[i].dir == f_c.dir && stay[i].size == f_c.size && stay[i].date_mod
            == f_c.date_mod)) {
        assert(pred(f_c));
    }
    if f_c.dir {
        assert(pred(f_c));
    }
}

/// The entry that a client announces before sending a file, and where the
/// server writes it: the name cut of trailing white space, in the server's
/// copy of the directory, each part of the path cut the same way.
pub fn incoming_file(server: &DirToArhiv, packet: &FileInfo) -> (r: (FileInfo, String))
    ensures
        r.0.name@ == trim_end_spec(packet.name@),
        r.0.dir == packet.dir,
        r.0.size == packet.size,
        r.0.date_mod == packet.date_mod,
        r.1@ == trim_endspaces_spec(server.full_file_spec(r.0)),
{
    let f = FileInfo {
        name: trim_end(packet.name.as_str()),
        dir: packet.dir,
        size: packet.size,
        date_mod: packet.date_mod,
    };
    let p = server.full_file(&f);
    let p = trim_endspaces_in_files(p.as_str());
    (f, p)
}

/// Where the server stores the log that a client sends at the end of a
/// session: in the client's directory for current copies.
pub fn log_file_path(d: &DirToArhiv) -> (r: String)
    ensures
        r@ == path_push_spec(d.base_sync_dir_spec(), FILE_LOG@),
{
    let p = d.base_sync_dir();
    path_push(p.as_str(), FILE_LOG)
}

/// How many entries of a list are directories.
pub open spec fn dir_count_spec(files: Seq<FileInfo>) -> nat {
    files.filter(|f: FileInfo| f.dir).len()
}

/// How many entries of a list are directories.
pub fn count_dirs(files: &Vec<FileInfo>) -> (n: usize)
    ensures
        n == dir_count_spec(files@),
{
    let ghost pred = |f: FileInfo| f.dir;
    let mut n: usize = 0;
    let mut i: usize = 0;
    while i < files.len()
        invariant
            i <= files@.len(),
            pred == (|f: FileInfo| f.dir),
            n == files@.take(i as int).filter(pred).len(),
            n <= i,
        decreases files@.len() - i,
    {
        reveal_with_fuel(Seq::<_>::filter, 1);
        assert(files@.take(i + 1).drop_last() =~= files@.take(i as int));
        if files[i].dir {
            n = n + 1;
        }
        i = i + 1;
    }
    assert(files@.take(files@.len() as int) =~= files@);
    n
}

/// Where a backup session stands on the server.
#[derive(Debug, PartialEq, Eq, Structural, Clone, Copy)]
pub enum SessionPhase {
    /// Waiting for the next directory list of the client, or its end marker.
    Jobs,
    /// Waiting for the files of the current directory, or their end marker.
    Files,
    /// The client has ended the session.
    Closed,
}

/// What the server does with what a client sent.
#[derive(Debug, PartialEq, Eq, Structural, Clone, Copy)]
pub enum SessionAction {
    /// Read the client's log, store it and close: the session is over.
    SaveLog,
    /// Plan the round for the directory list: keep, version, and answer with
    /// what is to be sent.
    PlanJob,
    /// Receive the file behind this entry.
    ReceiveFile,
    /// The directory's files are all in: wait for the next list.
    EndJob,
    /// Nothing fits: what came does not belong where the session stands.
    Refuse,
}

/// A backup session on the server: where it stands, and the number of the
/// directory list in hand (the first is 1).
#[derive(Debug)]
pub struct ServerSession {
    pub phase: SessionPhase,
    pub task: u64,
}

impl ServerSession {
    /// A session after the handshake: waiting for the first directory list.
    pub fn new() -> (r: ServerSession)
        ensures
            r.phase == SessionPhase::Jobs,
            r.task == 1,
    {
        ServerSession { phase: SessionPhase::Jobs, task: 1 }
    }

    /// The client sent the directory list `d`: its end marker closes the
    /// session after the log is saved; any other list is planned, and its
    /// files are awaited. Out of turn, it is refused.
    pub fn on_job(&mut self, d: &DirToArhiv) -> (a: SessionAction)
        ensures
            old(self).phase != SessionPhase::Jobs ==> a == SessionAction::Refuse && *final(self)
                == *old(self),
            old(self).phase == SessionPhase::Jobs && d.is_stop_spec() ==> a == SessionAction::SaveLog
                && final(self).phase == SessionPhase::Closed && final(self).task == old(self).task,
            old(self).phase == SessionPhase::Jobs && !d.is_stop_spec() ==> a == SessionAction::PlanJob
                && final(self).phase == SessionPhase::Files && final(self).task == old(self).task,
    {
        if self.phase != SessionPhase::Jobs {
            return SessionAction::Refuse;
        }
        if d.is_stop() {
            self.phase = SessionPhase::Closed;
            SessionAction::SaveLog
        } else {
            self.phase = SessionPhase::Files;
            SessionAction::PlanJob
        }
    }

    /// The client sent the entry `f` of the current directory: its end
    /// marker ends the directory and moves on to the next list; any other
    /// entry's file is received. Out of turn, it is refused.
    pub fn on_entry(&mut self, f: &FileInfo) -> (a: SessionAction)
        ensures
            old(self).phase != SessionPhase::Files ==> a == SessionAction::Refuse && *final(self)
                == *old(self),
            old(self).phase == SessionPhase::Files && f.is_stop_spec() ==> a == SessionAction::EndJob
                && final(self).phase == SessionPhase::Jobs && final(self).task == (if old(self).task
                < u64::MAX {
                old(self).task + 1
            } else {
                old(self).task as int
            }),
            old(self).phase == SessionPhase::Files && !f.is_stop_spec() ==> a
                == SessionAction::ReceiveFile && *final(self) == *old(self),
    {
        if self.phase != SessionPhase::Files {
            return SessionAction::Refuse;
        }
        if f.is_stop() {
            self.phase = SessionPhase::Jobs;
            self.task = self.task.saturating_add(1);
            SessionAction::EndJob
        } else {
            SessionAction::ReceiveFile
        }
    }
}

} // verus!
