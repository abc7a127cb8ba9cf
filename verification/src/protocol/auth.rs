//! The ids that the server hands out, and the digests by which the server
//! tells whether a client runs the current program.
use vstd::prelude::*;
use crate::utils::text::{ends_with_ignore_case, ends_with_ignore_case_spec, parse_u32, parse_u32_spec, trim_end_matches, trim_end_matches_spec};

verus! {

/// The file in which the server keeps the last id it handed out.
pub const SERVER_ID_FILE_NAME: &'static str = ".id_last";

/// The id the server starts from.
pub const SERVER_ID_START: u32 = 100;

/// Hands out client ids, each one more than the last.
pub struct IdGenerator {
    id: u32,
}

impl View for IdGenerator {
    type V = u32;

    closed spec fn view(&self) -> u32 {
        self.id
    }
}

impl IdGenerator {
    /// A generator that goes on from the id kept in the id file, `stored`
    /// being that file's text, or from `SERVER_ID_START` when there is no file.
    pub fn new(stored: Option<&str>) -> (r: IdGenerator)
        requires
            stored matches Some(s) ==> parse_u32_spec(s@) is Some,
        ensures
            r@ == (match stored {
                Some(s) => parse_u32_spec(s@)->0,
                None => SERVER_ID_START,
            }),
    {
        match stored {
            Some(s) => {
                match parse_u32(s) {
                    Some(id) => IdGenerator { id },
                    None => IdGenerator { id: SERVER_ID_START },
                }
            },
            None => IdGenerator { id: SERVER_ID_START },
        }
    }

    /// The last id handed out.
    pub fn current(&self) -> (r: u32)
        ensures
            r == self@,
    {
        self.id
    }

    /// Hands out the next id: one more than the last, so that no id is
    /// handed out twice.
    pub fn generate(&mut self) -> (r: u32)
        requires
            old(self)@ < u32::MAX,
        ensures
            r == old(self)@ + 1,
            final(self)@ == r,
            r > old(self)@,
    {
        self.id = self.id + 1;
        self.id
    }
}

/// Ids handed out one after another by `generate`, from a generator that
/// stood at `start`, each call made on what the one before left: `current`
/// then gives the last of them (and keeps giving it, as reading changes
/// nothing), and no id was handed out twice.
pub proof fn lemma_generated_ids(start: u32, ids: Seq<u32>, last: IdGenerator)
    requires
        ids.len() > 0,
        ids[0] == start + 1,
        forall|i: int| 0 <= i < ids.len() - 1 ==> #[trigger] ids[i + 1] == ids[i] + 1,
        last@ == ids.last(),
    ensures
        last@ == start + ids.len(),
        forall|i: int, j: int| 0 <= i < j < ids.len() ==> ids[i] < ids[j],
    decreases ids.len(),
{
    if ids.len() > 1 {
        let prev = IdGenerator { id: ids[ids.len() - 2] };
        let front = ids.drop_last();
        assert forall|i: int| 0 <= i < front.len() - 1 implies #[trigger] front[i + 1] == front[i] + 1 by {
            assert(ids[i + 1] == ids[i] + 1);
        }
        lemma_generated_ids(start, front, prev);
        let k = ids.len() - 2;
        assert(ids[k + 1] == ids[k] + 1);
        assert forall|i: int, j: int| 0 <= i < j < ids.len() implies ids[i] < ids[j] by {
            if j < ids.len() - 1 {
                assert(front[i] < front[j]);
            } else if i < ids.len() - 2 {
                assert(front[i] < front[ids.len() - 2]);
            }
        }
    }
}

/// The MD5 digest of some bytes.
pub uninterp spec fn md5_digest(data: Seq<u8>) -> Seq<u8>;

/// Calls `md5::compute` and returns the digest's bytes, named `md5_digest`.
#[verifier::external_body]
fn md5_compute(data: &[u8]) -> (d: [u8; 16])
    ensures
        d@ == md5_digest(data@),
{
    md5::compute(data).0
}

/// Sixteen zero bytes: the digest that stands for a file that could not be read.
pub open spec fn zero_digest() -> Seq<u8> {
    Seq::new(16, |i: int| 0u8)
}

/// The digest of a file's content, or sixteen zero bytes when it could not be read.
pub open spec fn digest_or_zero(content: Option<Seq<u8>>) -> Seq<u8> {
    match content {
        Some(c) => md5_digest(c),
        None => zero_digest(),
    }
}

/// Sixteen zero bytes.
fn zero16() -> (d: [u8; 16])
    ensures
        d@ == zero_digest(),
{
    let d = [0u8; 16];
    assert(d@ =~= zero_digest());
    d
}

/// The digest of a file's content, or sixteen zero bytes when it could not be read.
pub fn digest_of(content: Option<&[u8]>) -> (d: [u8; 16])
    ensures
        d@ == digest_or_zero(
            match content {
                Some(b) => Some(b@),
                None => None,
            },
        ),
{
    match content {
        Some(b) => md5_compute(b),
        None => zero16(),
    }
}

/// The digest of this program's own file, `exe` being its content.
pub fn md5_self(exe: Option<&[u8]>) -> (d: [u8; 16])
    ensures
        d@ == digest_or_zero(
            match exe {
                Some(b) => Some(b@),
                None => None,
            },
        ),
{
    digest_of(exe)
}

/// The digests of the Windows and of the Linux program that the server
/// hands out, `win` and `lin` being their files' contents, and the digest
/// that stands for "any program".
pub fn md5_win_lin(win: Option<&[u8]>, lin: Option<&[u8]>) -> (r: ([u8; 16], [u8; 16], [u8; 16]))
    ensures
        r.0@ == digest_or_zero(
            match win {
                Some(b) => Some(b@),
                None => None,
            },
        ),
        r.1@ == digest_or_zero(
            match lin {
                Some(b) => Some(b@),
                None => None,
            },
        ),
        r.2@ == zero_digest(),
{
    (digest_of(win), digest_of(lin), zero16())
}

/// The program's own file: the path it was started by, with `.exe` added on
/// Windows when the path, lowercased, does not end in it. Lowercasing can
/// only bring `.`, `e` and `x` at the end from the ASCII capitals `E` and
/// `X`, so the test compares the last four characters with ASCII capitals
/// made small.
pub open spec fn self_exe_path_spec(arg0: Seq<char>, is_windows: bool) -> Seq<char> {
    if is_windows && !ends_with_ignore_case_spec(arg0, ".exe"@) {
        arg0 + ".exe"@
    } else {
        arg0
    }
}

/// The program's own file, `arg0` being the path it was started by.
pub fn self_exe_path(arg0: &str, is_windows: bool) -> (r: String)
    ensures
        r@ == self_exe_path_spec(arg0@, is_windows),
{
    let mut a = arg0.to_owned();
    if is_windows {
        if !ends_with_ignore_case(arg0, ".exe") {
            a.append(".exe");
        }
    }
    a
}

/// The files of the Windows and the Linux program beside the running one:
/// the path it was started by with `.exe` added unless it ends in it (in
/// any case), and that path with every trailing `.exe` cut.
pub open spec fn win_lin_paths_spec(arg0: Seq<char>) -> (Seq<char>, Seq<char>) {
    let win = self_exe_path_spec(arg0, true);
    (win, trim_end_matches_spec(win, ".exe"@))
}

/// The files of the Windows and the Linux program beside the running one.
pub fn win_lin_paths(arg0: &str) -> (r: (String, String))
    ensures
        (r.0@, r.1@) == win_lin_paths_spec(arg0@),
{
    let win = self_exe_path(arg0, true);
    let lin = trim_end_matches(win.as_str(), ".exe");
    (win, lin)
}

} // verus!
