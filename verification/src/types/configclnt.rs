//! The client's settings: who it is, which server it reaches, and the list of
//! directories that the server tells it to back up.
use vstd::prelude::*;
use crate::types::{DEFAULT_SERVER, DEFAULT_SERVER_PORT};
use crate::types::dirtoarhiv::{login_string_spec, make_login_string};
use crate::utils::paths::{file_name, file_name_spec, lemma_char_pos_prefix, lemma_char_pos_shift};
use crate::utils::text::{
    char_pos, char_pos_from, char_position_from, is_space, lines_from, piece_from, trim_end_spec, trim_start_spec, contains_char, decimal_spec, decimal_string, lemma_char_pos_from,
    lines_of, lines_spec, nth_piece, push_char, replace_char, replace_char_spec, split_piece,
    string_of, to_chars, trim, trim_chars, trim_end_matches, trim_end_matches_spec, trim_spec,
};

verus! {

/// Who the client is and what it backs up.
#[derive(Debug)]
pub struct ConfigClnt {
    pub login: String,
    pub server: String,
    pub config: String,
    pub id: String,
    pub hostname: String,
}

impl Clone for ConfigClnt {
    fn clone(&self) -> (r: Self)
        ensures
            r == *self,
    {
        ConfigClnt {
            login: self.login.clone(),
            server: self.server.clone(),
            config: self.config.clone(),
            id: self.id.clone(),
            hostname: self.hostname.clone(),
        }
    }
}

/// The id kept in the id file, `stored` being its text: the text trimmed,
/// or nothing when there is no file.
pub open spec fn stored_id_spec(stored: Option<Seq<char>>) -> Seq<char> {
    match stored {
        Some(s) => trim_spec(s),
        None => Seq::empty(),
    }
}

/// A settings line `dir # alias` cut in two: when there is a `#`, the text
/// before it and the text after it, both trimmed; otherwise the whole line,
/// untrimmed, and no alias.
pub open spec fn config_pair_spec(l: Seq<char>) -> (Seq<char>, Seq<char>) {
    match char_pos(l, '#') {
        None => (l, Seq::empty()),
        Some(p) => (trim_spec(l.take(p)), trim_spec(l.skip(p + 1))),
    }
}

/// The `(dir, alias)` pairs of the settings text, one per line.
pub open spec fn config_lines_spec(config: Seq<char>) -> Seq<(Seq<char>, Seq<char>)> {
    lines_spec(config).map_values(|l: Seq<char>| config_pair_spec(l))
}

/// The text of a pair of strings.
pub open spec fn pair_views(v: Seq<(String, String)>) -> Seq<(Seq<char>, Seq<char>)> {
    v.map_values(|p: (String, String)| (p.0@, p.1@))
}

/// The login and the server that `s` names as `login@server`, both taken
/// from `s` trimmed and cut at `@`: the first piece is the login, the second
/// (or nothing) the server.
pub open spec fn login_and_server_spec(s: Seq<char>) -> (Seq<char>, Seq<char>) {
    let t = trim_spec(s);
    let login = split_piece(t, '@', 0)->0;
    let server = match split_piece(t, '@', 1) {
        Some(p) => p,
        None => Seq::empty(),
    };
    (login, server)
}

/// The server to reach for a given server text: the default server when it
/// is empty, and `:12345` added when it has no port.
pub open spec fn server_address_spec(server: Seq<char>) -> Seq<char> {
    let srv = if server.len() == 0 {
        DEFAULT_SERVER@
    } else {
        server
    };
    if srv.contains(':') {
        srv
    } else {
        srv + seq![':'] + decimal_spec(DEFAULT_SERVER_PORT as nat)
    }
}

/// The name under which the program was started, `.exe` cut from its end as
/// often as it stands there, its second piece when cut at `_`, with `!` read
/// as `:`: the `login@server!port` that names its settings.
pub open spec fn settings_text_from_file_name(arg0: Seq<char>) -> Seq<char> {
    let name = match file_name_spec(arg0) {
        Some(n) => n,
        None => Seq::empty(),
    };
    let name = trim_end_matches_spec(name, ".exe"@);
    let s = match split_piece(name, '_', 1) {
        Some(p) => p,
        None => Seq::empty(),
    };
    replace_char_spec(s, '!', ':')
}

/// The name of the running host, when the system tells it and it is UTF-8.
///
/// Calls `hostname::get`. Nothing is said of the name: it is the machine's.
#[verifier::external_body]
fn host_name() -> (r: Option<String>) {
    match hostname::get() {
        Ok(h) => h.into_string().ok(),
        Err(_) => None,
    }
}

impl ConfigClnt {
    /// Takes the id from the id file, `stored` being its text.
    pub fn refresh_id(&mut self, stored: Option<&str>)
        ensures
            final(self).id@ == stored_id_spec(
                match stored {
                    Some(s) => Some(s@),
                    None => None,
                },
            ),
            final(self).login == old(self).login,
            final(self).server == old(self).server,
            final(self).config == old(self).config,
            final(self).hostname == old(self).hostname,
    {
        self.id = match stored {
            Some(s) => trim(s),
            None => String::new(),
        };
    }

    /// The settings of a client named `login` that reaches `server`, with
    /// the host's name and the id from the id file (`stored_id` being its
    /// text), and no list of directories yet.
    pub fn setup(login: String, server: String, stored_id: Option<&str>) -> (r: ConfigClnt)
        ensures
            r.login == login,
            r.server == server,
            r.config@.len() == 0,
            r.id@ == stored_id_spec(
                match stored_id {
                    Some(s) => Some(s@),
                    None => None,
                },
            ),
    {
        let hostname = match host_name() {
            Some(h) => h,
            None => String::new(),
        };
        ConfigClnt::setup_on(login, server, stored_id, hostname)
    }

    /// The settings of a client named `login` that reaches `server` from the
    /// host `hostname`, with the id from the id file (`stored_id` being its
    /// text), and no list of directories yet.
    pub fn setup_on(login: String, server: String, stored_id: Option<&str>, hostname: String) -> (r:
        ConfigClnt)
        ensures
            r.login == login,
            r.server == server,
            r.hostname == hostname,
            r.config@.len() == 0,
            r.id@ == stored_id_spec(
                match stored_id {
                    Some(s) => Some(s@),
                    None => None,
                },
            ),
    {
        let mut out = ConfigClnt { login, id: String::new(), server, config: String::new(), hostname };
        out.refresh_id(stored_id);
        out
    }

    /// The settings named by `s`, written `login[@server[:port]]`; none when
    /// the login is empty.
    pub fn parse_str(s: &str, stored_id: Option<&str>) -> (r: Option<ConfigClnt>)
        ensures
            login_and_server_spec(s@).0.len() == 0 <==> r is None,
            r matches Some(c) ==> {
                &&& c.login@ == login_and_server_spec(s@).0
                &&& c.server@ == server_address_spec(login_and_server_spec(s@).1)
                &&& c.config@.len() == 0
                &&& c.id@ == stored_id_spec(
                    match stored_id {
                        Some(i) => Some(i@),
                        None => None,
                    },
                )
            },
    {
        let t = trim(s);
        let tv = to_chars(t.as_str());
        let login = match nth_piece(tv.as_slice(), '@', 0) {
            Some(l) => l,
            None => String::new(),
        };
        proof {
            lemma_first_piece(tv@, '@');
        }
        let server0 = match nth_piece(tv.as_slice(), '@', 1) {
            Some(p) => p,
            None => String::new(),
        };
        if login.as_str().is_empty() {
            return None;
        }
        let srv = if server0.as_str().is_empty() {
            DEFAULT_SERVER.to_owned()
        } else {
            server0
        };
        let server = if contains_char(srv.as_str(), ':') {
            srv
        } else {
            let mut with_port = srv;
            push_char(&mut with_port, ':');
            let port = decimal_string(DEFAULT_SERVER_PORT as u32);
            with_port.append(port.as_str());
            with_port
        };
        Some(ConfigClnt::setup(login, server, stored_id))
    }

    /// The settings named by the file name of the program, `arg0` being the
    /// path it was started by: `name_login@server!port[.exe]`.
    pub fn read_from_filename(arg0: &str, stored_id: Option<&str>) -> (r: Option<ConfigClnt>)
        ensures
            ({
                let s = settings_text_from_file_name(arg0@);
                &&& login_and_server_spec(s).0.len() == 0 <==> r is None
                &&& r matches Some(c) ==> {
                    &&& c.login@ == login_and_server_spec(s).0
                    &&& c.server@ == server_address_spec(login_and_server_spec(s).1)
                    &&& c.config@.len() == 0
                &&& c.id@ == stored_id_spec(
                    match stored_id {
                        Some(i) => Some(i@),
                        None => None,
                    },
                )
                }
            }),
    {
        let name = match file_name(arg0) {
            Some(n) => n,
            None => String::new(),
        };
        let name = trim_end_matches(name.as_str(), ".exe");
        let nv = to_chars(name.as_str());
        let s = match nth_piece(nv.as_slice(), '_', 1) {
            Some(p) => p,
            None => String::new(),
        };
        let s = replace_char(s.as_str(), '!', ':');
        ConfigClnt::parse_str(s.as_str(), stored_id)
    }

    /// The names of the program file that the client runs as, `arg0` being
    /// the path it was started by: its file name, and that name with `.exe`
    /// added on Windows when it does not end in it (in any case). The client
    /// uses the second when such a file exists, the first otherwise.
    pub fn filename_candidates(arg0: &str, is_windows: bool) -> (r: (String, String))
        ensures
            r.0@ == (match file_name_spec(arg0@) {
                Some(n) => n,
                None => Seq::empty(),
            }),
            r.1@ == crate::protocol::auth::self_exe_path_spec(r.0@, is_windows),
    {
        let name = match file_name(arg0) {
            Some(n) => n,
            None => String::new(),
        };
        let with_exe = crate::protocol::auth::self_exe_path(name.as_str(), is_windows);
        (name, with_exe)
    }

    /// Sets the list of directories to back up.
    pub fn set_config(&mut self, s: String)
        ensures
            final(self).config == s,
            final(self).login == old(self).login,
            final(self).server == old(self).server,
            final(self).id == old(self).id,
            final(self).hostname == old(self).hostname,
    {
        self.config = s;
    }

    /// Takes the id that the server handed out; an empty id is refused.
    pub fn accept_id(&mut self, id: String) -> (r: Result<(), crate::protocol::net::NetError>)
        ensures
            final(self).id == id,
            final(self).login == old(self).login,
            final(self).server == old(self).server,
            final(self).config == old(self).config,
            final(self).hostname == old(self).hostname,
            r is Ok <==> id@.len() > 0,
            r matches Err(e) ==> e is InvalidData,
    {
        self.id = id;
        if self.id.as_str().is_empty() {
            return Err(crate::protocol::net::NetError::InvalidData);
        }
        Ok(())
    }

    /// The `(dir, alias)` pairs of the list of directories, one per line.
    pub fn config_lines(&self) -> (r: Vec<(String, String)>)
        ensures
            pair_views(r@) == config_lines_spec(self.config@),
    {
        let v = to_chars(self.config.as_str());
        let lines = lines_of(v.as_slice());
        let mut out: Vec<(String, String)> = Vec::new();
        let mut i: usize = 0;
        while i < lines.len()
            invariant
                i <= lines@.len(),
                crate::utils::text::seqs_of(lines@) == lines_spec(self.config@),
                v@ == self.config@,
                pair_views(out@) == config_lines_spec(self.config@).take(i as int),
            decreases lines@.len() - i,
        {
            let l = &lines[i];
            assert(crate::utils::text::seqs_of(lines@)[i as int] == l@);
            let pair = config_pair(l.as_slice());
            let ghost before = out@;
            out.push(pair);
            assert(pair_views(out@) =~= pair_views(before).push((pair.0@, pair.1@)));
            assert(config_lines_spec(self.config@).take(i + 1) =~= config_lines_spec(
                self.config@,
            ).take(i as int).push(config_pair_spec(l@)));
            i = i + 1;
        }
        assert(config_lines_spec(self.config@).take(lines@.len() as int) =~= config_lines_spec(
            self.config@,
        ));
        out
    }

    /// The directories to back up: the `(dir, alias)` pairs whose directory
    /// is not blank.
    pub fn backup_roots(&self) -> (r: Vec<(String, String)>)
        ensures
            pair_views(r@) == config_lines_spec(self.config@).filter(
                |p: (Seq<char>, Seq<char>)| trim_spec(p.0).len() > 0,
            ),
    {
        let lines = self.config_lines();
        let ghost pred = |p: (Seq<char>, Seq<char>)| trim_spec(p.0).len() > 0;
        let mut out: Vec<(String, String)> = Vec::new();
        let mut i: usize = 0;
        while i < lines.len()
            invariant
                i <= lines@.len(),
                pair_views(lines@) == config_lines_spec(self.config@),
                pred == (|p: (Seq<char>, Seq<char>)| trim_spec(p.0).len() > 0),
                pair_views(out@) == pair_views(lines@).take(i as int).filter(pred),
            decreases lines@.len() - i,
        {
            reveal_with_fuel(Seq::<_>::filter, 1);
            let p = &lines[i];
            let blank = trim(p.0.as_str());
            let ghost before = out@;
            assert(pair_views(lines@).take(i + 1).drop_last() =~= pair_views(lines@).take(i as int));
            assert(pair_views(lines@)[i as int] == (p.0@, p.1@));
            if !blank.as_str().is_empty() {
                out.push((p.0.clone(), p.1.clone()));
                assert(pair_views(out@) =~= pair_views(before).push((p.0@, p.1@)));
            }
            i = i + 1;
        }
        assert(pair_views(lines@).take(lines@.len() as int) =~= pair_views(lines@));
        out
    }

    /// The name under which the server knows this client.
    pub fn login_string(&self) -> (r: String)
        ensures
            r@ == login_string_spec(self.login@, self.hostname@, self.id@),
    {
        make_login_string(&self.login, &self.hostname, &self.id)
    }
}

/// The server files a client's jobs under the name the client logs in with:
/// a job built from the client's login, id and host name has the client's
/// login string.
pub proof fn lemma_job_login_matches_client(cfg: ConfigClnt, d: crate::types::dirtoarhiv::DirToArhiv)
    requires
        d.login@ == cfg.login@,
        d.id@ == cfg.id@,
        d.hostname@ == cfg.hostname@,
    ensures
        d.login_string_view() == login_string_spec(cfg.login@, cfg.hostname@, cfg.id@),
{
}

/// Cutting a text at a character always gives a first piece.
proof fn lemma_first_piece(s: Seq<char>, c: char)
    ensures
        split_piece(s, c, 0) is Some,
{
}

/// A settings line cut in two at its first `#`.
fn config_pair(l: &[char]) -> (r: (String, String))
    ensures
        (r.0@, r.1@) == config_pair_spec(l@),
{
    let n = l.len();
    match char_position_from(l, '#', 0) {
        None => {
            let whole = string_of(l, 0, l.len());
            assert(l@.subrange(0, l@.len() as int) =~= l@);
            (whole, String::new())
        },
        Some(p) => {
            proof {
                lemma_char_pos_from(l@, '#', 0);
            }
            assert(l@.subrange(0, p as int) =~= l@.take(p as int));
            assert(l@.subrange(p + 1, l@.len() as int) =~= l@.skip(p + 1));
            (trim_chars(l, 0, p), trim_chars(l, p + 1, n))
        },
    }
}

/// A text `login@server` names the login before the `@` and the server
/// after it (nothing when the `@` ends the text), when neither holds an `@`
/// and the text has no white space at its ends.
pub proof fn lemma_login_at_server(l: Seq<char>, h: Seq<char>)
    requires
        l.len() > 0,
        !l.contains('@'),
        !h.contains('@'),
        !is_space(l[0]),
        h.len() > 0 ==> !is_space(h.last()),
    ensures
        login_and_server_spec(l + seq!['@'] + h).0 == l,
        login_and_server_spec(l + seq!['@'] + h).1 == h,
{
    let s = l + seq!['@'] + h;
    assert(s.last() == if h.len() > 0 { h.last() } else { '@' });
    assert(trim_end_spec(s) == s);
    assert(s[0] == l[0]);
    assert(trim_start_spec(s) == s);
    assert(trim_spec(s) == s);
    lemma_char_pos_from(l, '@', 0);
    if char_pos_from(l, '@', 0) is Some {
        let k = char_pos_from(l, '@', 0)->0;
        assert(l[k] == '@');
        assert(l.contains('@'));
    }
    let w = seq!['@'] + h;
    assert(s =~= l + w);
    lemma_char_pos_prefix(l, w, '@', 0);
    assert(s[l.len() as int] == '@');
    assert(char_pos_from(s, '@', l.len() as int) == Some(l.len() as int));
    assert(char_pos_from(s, '@', 0) == Some(l.len() as int));
    assert(s.subrange(0, l.len() as int) =~= l);
    lemma_char_pos_from(h, '@', 0);
    if char_pos_from(h, '@', 0) is Some {
        let k = char_pos_from(h, '@', 0)->0;
        assert(h[k] == '@');
        assert(h.contains('@'));
    }
    lemma_char_pos_shift(l + seq!['@'], h, '@', 0);
    assert(char_pos_from(s, '@', (l.len() + 1) as int) is None);
    assert(s.subrange((l.len() + 1) as int, s.len() as int) =~= h);
    assert(piece_from(s, '@', (l.len() + 1) as int, 0) == Some(h));
    assert(piece_from(s, '@', 0, 1) == Some(h));
    assert(split_piece(s, '@', 1) == Some(h));
}

/// A text with no `@` (and no white space at its ends) is a login alone:
/// no server is named.
pub proof fn lemma_login_alone(l: Seq<char>)
    requires
        l.len() > 0,
        !l.contains('@'),
        !is_space(l[0]),
        !is_space(l.last()),
    ensures
        login_and_server_spec(l).0 == l,
        login_and_server_spec(l).1.len() == 0,
{
    assert(trim_end_spec(l) == l);
    assert(trim_start_spec(l) == l);
    lemma_char_pos_from(l, '@', 0);
    if char_pos_from(l, '@', 0) is Some {
        let k = char_pos_from(l, '@', 0)->0;
        assert(l[k] == '@');
        assert(l.contains('@'));
    }
    assert(l.subrange(0, l.len() as int) =~= l);
}

/// The server a client reaches for the server text `h`: the default server
/// `backup.lab31.ru:12345` when `h` is empty; `h` itself when it names a
/// port (holds a `:`); otherwise `h` with the default port `:12345` added,
/// whatever else it holds (dots included).
pub proof fn lemma_server_address(h: Seq<char>)
    ensures
        h.len() == 0 ==> server_address_spec(h) == "backup.lab31.ru:12345"@,
        h.len() > 0 && h.contains(':') ==> server_address_spec(h) == h,
        h.len() > 0 && !h.contains(':') ==> server_address_spec(h) == h + seq![
            ':',
            '1',
            '2',
            '3',
            '4',
            '5',
        ],
{
    reveal_strlit("backup.lab31.ru:12345");
    assert(DEFAULT_SERVER@ == "backup.lab31.ru:12345"@);
    assert(DEFAULT_SERVER@[15] == ':');
    assert(DEFAULT_SERVER@.contains(':'));
    assert(decimal_spec(1) == seq!['1']);
    assert(decimal_spec(12) =~= seq!['1', '2']);
    assert(decimal_spec(123) =~= seq!['1', '2', '3']);
    assert(decimal_spec(1234) =~= seq!['1', '2', '3', '4']);
    assert(decimal_spec(12345) =~= seq!['1', '2', '3', '4', '5']);
    assert(DEFAULT_SERVER_PORT as nat == 12345);
}

/// Naming a client `login@server` with a server that gives no port: the
/// login is the text before `@`, and the server reached is the one named
/// with the default port `12345` added after a `:`, whatever the server
/// name holds (dots included).
pub proof fn lemma_bare_server_gets_default_port(l: Seq<char>, h: Seq<char>)
    requires
        l.len() > 0,
        h.len() > 0,
        !l.contains('@'),
        !h.contains('@'),
        !h.contains(':'),
        !is_space(l[0]),
        !is_space(h.last()),
    ensures
        login_and_server_spec(l + seq!['@'] + h).0 == l,
        login_and_server_spec(l + seq!['@'] + h).1 == h,
        server_address_spec(login_and_server_spec(l + seq!['@'] + h).1) == h + seq![
            ':',
            '1',
            '2',
            '3',
            '4',
            '5',
        ],
{
    lemma_login_at_server(l, h);
    lemma_server_address(h);
}

/// A settings line with a `#` names the directory before its first `#` and
/// the alias after it, each with the white space at both ends cut and the
/// white space inside kept: the `(dir, alias)` pair that `config_lines`
/// gives for the line.
pub proof fn lemma_config_line_split(config: Seq<char>, k: int, p: int)
    requires
        0 <= k < lines_spec(config).len(),
        0 <= p < lines_spec(config)[k].len(),
        lines_spec(config)[k][p] == '#',
        forall|j: int| 0 <= j < p ==> lines_spec(config)[k][j] != '#',
    ensures
        config_lines_spec(config)[k].0 == trim_spec(lines_spec(config)[k].take(p)),
        config_lines_spec(config)[k].1 == trim_spec(lines_spec(config)[k].skip(p + 1)),
{
    let l = lines_spec(config)[k];
    lemma_first_char_pos(l, '#', p, 0);
}

/// A settings line with no `#` names the whole line, as it is, as the
/// directory, and no alias.
pub proof fn lemma_config_line_without_alias(config: Seq<char>, k: int)
    requires
        0 <= k < lines_spec(config).len(),
        !lines_spec(config)[k].contains('#'),
    ensures
        config_lines_spec(config)[k].0 == lines_spec(config)[k],
        config_lines_spec(config)[k].1.len() == 0,
{
    let l = lines_spec(config)[k];
    lemma_char_pos_from(l, '#', 0);
    if char_pos_from(l, '#', 0) is Some {
        let j = char_pos_from(l, '#', 0)->0;
        assert(l[j] == '#');
        assert(l.contains('#'));
    }
}

/// The lines of a text, from inside a part that follows other text, are
/// those of that part.
proof fn lemma_lines_shift(p: Seq<char>, t: Seq<char>, j: int)
    requires
        0 <= j,
    ensures
        lines_from(p + t, p.len() + j) == lines_from(t, j),
    decreases t.len() - j,
{
    let u = p + t;
    if j < t.len() {
        lemma_char_pos_shift(p, t, '\n', j);
        lemma_char_pos_from(t, '\n', j);
        match char_pos_from(t, '\n', j) {
            Some(k) => {
                lemma_lines_shift(p, t, k + 1);
                assert(u.subrange(p.len() + j, p.len() + k) =~= t.subrange(j, k));
                assert(p.len() + k + 1 == p.len() + (k + 1));
            },
            None => {
                assert(u.subrange(p.len() + j, u.len() as int) =~= t.subrange(j, t.len() as int));
            },
        }
    }
}

/// The lines of a settings text: a line `l` with no line break, then `\n`,
/// then the rest, gives `l` (less a `\r` at its end) followed by the lines of
/// the rest; a text with no line break is one line as it is (none when empty).
pub proof fn lemma_lines_of(l: Seq<char>, rest: Seq<char>)
    requires
        !l.contains('\n'),
    ensures
        lines_spec(l + seq!['\n'] + rest) == seq![
            if l.len() > 0 && l.last() == '\r' {
                l.drop_last()
            } else {
                l
            },
        ] + lines_spec(rest),
        l.len() > 0 ==> lines_spec(l) == seq![l],
        lines_spec(Seq::<char>::empty()).len() == 0,
{
    let s = l + seq!['\n'] + rest;
    lemma_char_pos_from(l, '\n', 0);
    if char_pos_from(l, '\n', 0) is Some {
        let j = char_pos_from(l, '\n', 0)->0;
        assert(l[j] == '\n');
        assert(l.contains('\n'));
    }
    let w = seq!['\n'] + rest;
    assert(s =~= l + w);
    lemma_char_pos_prefix(l, w, '\n', 0);
    assert(s[l.len() as int] == '\n');
    assert(char_pos_from(s, '\n', l.len() as int) == Some(l.len() as int));
    assert(s.subrange(0, l.len() as int) =~= l);
    lemma_lines_shift(l + seq!['\n'], rest, 0);
    assert(lines_from(s, (l.len() + 1) as int) == lines_spec(rest));
    if l.len() > 0 {
        assert(l.subrange(0, l.len() as int) =~= l);
    }
}

/// The first `c` from `i` on stands at `p` when `c` stands at `p` and nowhere
/// between `i` and `p`.
proof fn lemma_first_char_pos(l: Seq<char>, c: char, p: int, i: int)
    requires
        0 <= i <= p < l.len(),
        l[p] == c,
        forall|j: int| i <= j < p ==> l[j] != c,
    ensures
        char_pos_from(l, c, i) == Some(p),
    decreases p - i,
{
    if i < p {
        lemma_first_char_pos(l, c, p, i + 1);
    }
}

} // verus!
