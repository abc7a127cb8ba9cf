//! The client's decisions: when to reconnect and when to give up, which task
//! comes next, what to send for each entry, and how to take an update.
use vstd::prelude::*;
use crate::types::{DEFAULT_CLIENT_RECONNECT_ERROR, DEFAULT_CLIENT_RETRYES, DEFAULT_UPDATE};
use crate::types::dirtoarhiv::{DirToArhiv, FileInfo};

verus! {

/// The client's connection loop: how many failures it still takes, and the
/// task that failed last, to be tried first on the next connection.
#[derive(Debug)]
pub struct ConnLoop {
    pub error_count: u32,
    pub last: Option<DirToArhiv>,
}

/// What ended an attempt of the connection loop.
#[derive(Debug)]
pub enum ConnEvent {
    /// The connection to the server could not be made.
    ConnectFailed,
    /// The session failed before or between tasks.
    SessionFailed,
    /// A backup job failed midway.
    TaskFailed(DirToArhiv),
    /// Every task was sent.
    Finished,
}

/// What the connection loop does next: wait this many seconds, then connect
/// again or stop.
#[derive(Debug)]
pub struct ConnAction {
    pub wait_secs: u64,
    pub reconnect: bool,
}

impl ConnLoop {
    /// A loop that takes `DEFAULT_CLIENT_RETRYES` failures, with no task pending.
    pub fn new() -> (r: ConnLoop)
        ensures
            r.error_count == DEFAULT_CLIENT_RETRYES,
            r.last is None,
    {
        ConnLoop { error_count: DEFAULT_CLIENT_RETRYES, last: None }
    }

    /// Takes the outcome of an attempt. Every failure uses up one of the
    /// failures the loop takes; a failed connection waits a minute, and keeps
    /// the pending task; a failed session drops it; a task that failed midway
    /// becomes the pending one. The loop stops when it has no failure left or
    /// when every task was sent, so it connects at most
    /// `DEFAULT_CLIENT_RETRYES` times after a failure.
    pub fn step(&mut self, ev: ConnEvent) -> (a: ConnAction)
        requires
            old(self).error_count > 0,
        ensures
            match ev {
                ConnEvent::ConnectFailed => {
                    &&& final(self).error_count == old(self).error_count - 1
                    &&& final(self).last == old(self).last
                    &&& a.wait_secs == DEFAULT_CLIENT_RECONNECT_ERROR
                    &&& a.reconnect == (final(self).error_count > 0)
                },
                ConnEvent::SessionFailed => {
                    &&& final(self).error_count == old(self).error_count - 1
                    &&& final(self).last is None
                    &&& a.wait_secs == 0
                    &&& a.reconnect == (final(self).error_count > 0)
                },
                ConnEvent::TaskFailed(d) => {
                    &&& final(self).error_count == old(self).error_count - 1
                    &&& final(self).last == Some(d)
                    &&& a.wait_secs == 0
                    &&& a.reconnect == (final(self).error_count > 0)
                },
                ConnEvent::Finished => {
                    &&& final(self).error_count == old(self).error_count
                    &&& final(self).last is None
                    &&& a.wait_secs == 0
                    &&& !a.reconnect
                },
            },
            a.reconnect ==> 0 < final(self).error_count < old(self).error_count,
    {
        match ev {
            ConnEvent::ConnectFailed => {
                self.error_count = self.error_count - 1;
                ConnAction { wait_secs: DEFAULT_CLIENT_RECONNECT_ERROR, reconnect: self.error_count != 0 }
            },
            ConnEvent::SessionFailed => {
                self.error_count = self.error_count - 1;
                self.last = None;
                ConnAction { wait_secs: 0, reconnect: self.error_count != 0 }
            },
            ConnEvent::TaskFailed(d) => {
                self.error_count = self.error_count - 1;
                self.last = Some(d);
                ConnAction { wait_secs: 0, reconnect: self.error_count != 0 }
            },
            ConnEvent::Finished => {
                self.last = None;
                ConnAction { wait_secs: 0, reconnect: false }
            },
        }
    }
}

/// The next thing a session does.
#[derive(Debug)]
pub enum SessionStep {
    /// Send the end marker and the log, and close.
    Finish,
    /// Back up this directory.
    Run(DirToArhiv),
}

/// The next thing a session does with the next task, when there is one: a
/// missing task or the end marker finishes the session.
pub fn session_step(next: Option<DirToArhiv>) -> (s: SessionStep)
    ensures
        match next {
            None => s is Finish,
            Some(d) => if d.is_stop_spec() {
                s is Finish
            } else {
                s == SessionStep::Run(d)
            },
        },
{
    match next {
        None => SessionStep::Finish,
        Some(d) => {
            if d.is_stop() {
                SessionStep::Finish
            } else {
                SessionStep::Run(d)
            }
        },
    }
}

/// What a client sends for an entry that the server asked for.
#[derive(Debug)]
pub enum UploadStep {
    /// Send the entry alone: it is the end marker.
    SendStop,
    /// Send nothing: it is a directory.
    Skip,
    /// Send the entry, then the file at this path.
    SendFile(String),
}

/// What a client sends for the entry `f` of the task `files`.
pub fn upload_step(files: &DirToArhiv, f: &FileInfo) -> (s: UploadStep)
    ensures
        f.is_stop_spec() ==> s is SendStop,
        !f.is_stop_spec() && f.dir ==> s is Skip,
        !f.is_stop_spec() && !f.dir ==> (s matches UploadStep::SendFile(p) && p@
            == files.full_file_spec(*f)),
{
    if f.is_stop() {
        return UploadStep::SendStop;
    }
    if f.dir {
        return UploadStep::Skip;
    }
    UploadStep::SendFile(files.full_file(f))
}

/// A file that a client sends is never taken for the end marker: the marker
/// is a directory.
pub proof fn lemma_sent_file_is_not_stop(f: FileInfo)
    requires
        !f.dir,
    ensures
        !f.is_stop_spec(),
{
}

/// The code by which a client tells the server its system: 1 for Windows,
/// 2 for the others.
pub fn os_code(is_windows: bool) -> (c: u8)
    ensures
        c == (if is_windows {
            1u8
        } else {
            2u8
        }),
{
    if is_windows {
        1
    } else {
        2
    }
}

/// Whether the server's answer `status` to the client's digest tells it to
/// update itself.
pub fn wants_update(status: u8) -> (b: bool)
    ensures
        b == (status == DEFAULT_UPDATE),
{
    status == DEFAULT_UPDATE
}

/// The names under which an updating client saves the new program and keeps
/// the old one, `file_name` being its own file.
pub fn update_names(file_name: &str) -> (r: (String, String))
    ensures
        r.0@ == file_name@ + ".new"@,
        r.1@ == file_name@ + ".old"@,
{
    let mut new_name = file_name.to_owned();
    new_name.append(".new");
    let mut old_name = file_name.to_owned();
    old_name.append(".old");
    (new_name, old_name)
}

} // verus!
