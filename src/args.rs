//! The configuration of one upload run.
use vstd::prelude::*;

verus! {

/// Where to upload from and to, how to reach the server, and how hard to try.
pub struct Args {
    /// Directory on the server under which files are stored.
    pub remote_path: String,
    /// Local file or directory to upload.
    pub local_path: String,
    /// Server address or host name.
    pub server: String,
    /// User name; a login is made only when a password is given too.
    pub username: Option<String>,
    /// Password; a login is made only when a user name is given too.
    pub password: Option<String>,
    /// How many times a failed file is tried again; none when absent.
    pub retry: Option<u32>,
    /// Server port.
    pub port: u32,
    /// Number of concurrent sessions; the machine's parallelism when absent.
    pub thread: Option<usize>,
}

/// The configuration was asked for before it was set.
#[derive(Debug, Clone, Copy, PartialEq, Eq, Structural)]
pub enum ArgsError {
    Unset,
}

/// The run's configuration, or an error where it has not been set yet.
pub fn get_args<'a>(parsed: Option<&'a Args>) -> (r: Result<&'a Args, ArgsError>)
    ensures
        parsed matches Some(a) ==> r == Ok::<&Args, ArgsError>(a),
        parsed is None ==> r == Err::<&Args, ArgsError>(ArgsError::Unset),
{
    match parsed {
        Some(a) => Ok(a),
        None => Err(ArgsError::Unset),
    }
}

impl Args {
    /// The user name and password, when both are given.
    pub fn credentials(&self) -> (r: Option<(String, String)>)
        ensures
            match (self.username, self.password) {
                (Some(u), Some(p)) => r matches Some((ru, rp)) && ru@ == u@ && rp@ == p@,
                _ => r is None,
            },
    {
        match (&self.username, &self.password) {
            (Some(u), Some(p)) => Some((u.clone(), p.clone())),
            _ => None,
        }
    }

    /// How many times a failed file is tried again: none unless configured.
    pub fn retry_limit(&self) -> (r: u32)
        ensures
            r == match self.retry {
                Some(n) => n,
                None => 0,
            },
    {
        match self.retry {
            Some(n) => n,
            None => 0,
        }
    }
}

} // verus!
