//! The server's settings.
use vstd::prelude::*;
use crate::protocol::auth::{digest_or_zero, md5_win_lin, win_lin_paths, win_lin_paths_spec, zero_digest};

verus! {

/// Where the server listens, and the digests of the programs it hands out.
#[derive(Debug)]
pub struct ConfigSrv {
    pub bind: String,
    pub win_md5: [u8; 16],
    pub lin_md5: [u8; 16],
    pub non_md5: [u8; 16],
}

impl Clone for ConfigSrv {
    fn clone(&self) -> (r: Self)
        ensures
            r == *self,
    {
        ConfigSrv {
            bind: self.bind.clone(),
            win_md5: self.win_md5,
            lin_md5: self.lin_md5,
            non_md5: self.non_md5,
        }
    }
}

impl ConfigSrv {
    /// The file that holds the program for system `os` (1 for Windows, 2 for
    /// Linux), `arg0` being the path the server was started by; for any other
    /// system, the empty path, which no file has.
    pub fn exec_file_name(os: u8, arg0: &str) -> (r: String)
        ensures
            os == 1 ==> r@ == win_lin_paths_spec(arg0@).0,
            os == 2 ==> r@ == win_lin_paths_spec(arg0@).1,
            os != 1 && os != 2 ==> r@.len() == 0,
    {
        let (win, lin) = win_lin_paths(arg0);
        if os == 1 {
            win
        } else if os == 2 {
            lin
        } else {
            String::new()
        }
    }

    /// The settings of a server bound to `bind`, `win` and `lin` being the
    /// contents of the Windows and the Linux program it hands out.
    pub fn setup(bind: String, win: Option<&[u8]>, lin: Option<&[u8]>) -> (r: ConfigSrv)
        ensures
            r.bind == bind,
            r.win_md5@ == digest_or_zero(
                match win {
                    Some(b) => Some(b@),
                    None => None,
                },
            ),
            r.lin_md5@ == digest_or_zero(
                match lin {
                    Some(b) => Some(b@),
                    None => None,
                },
            ),
            r.non_md5@ == zero_digest(),
    {
        let (win_md5, lin_md5, non_md5) = md5_win_lin(win, lin);
        ConfigSrv { bind, win_md5, lin_md5, non_md5 }
    }
}

} // verus!
