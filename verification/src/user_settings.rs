//! The settings of the user running the application.
use vstd::prelude::*;

use crate::local_info::{LocalInfo, user_data_dir_of, user_index_dir_of};

verus! {

/// The name of the user running the process, as `whoami::username` reports it.
/// It depends on the environment, so nothing is stated of it.
#[verifier::external_body]
pub(crate) fn current_username() -> String {
    whoami::username()
}

/// No ASCII capital letter occurs in `s`.
pub open spec fn no_ascii_uppercase(s: Seq<char>) -> bool {
    forall|i: int| 0 <= i < s.len() ==> !('A' <= #[trigger] s[i] && s[i] <= 'Z')
}

/// The name of the machine, as `whoami::hostname` reports it, which it
/// normalizes to lowercase: every ASCII capital is lowered. What the name is
/// depends on the environment and is not stated.
#[verifier::external_body]
#[allow(deprecated)]
fn current_hostname() -> (r: String)
    ensures
        no_ascii_uppercase(r@),
{
    whoami::hostname()
}

/// Who the user is and where the user's files live.
#[derive(Debug, Clone)]
pub struct UserSettings {
    pub id: Option<i32>,
    pub username: String,
    pub hostname: String,
    pub home_dir: String,
    pub index_dir: String,
    pub data_dir: String,
}

impl Default for UserSettings {
    /// No id and every field empty.
    fn default() -> (r: Self)
        ensures
            r.id is None,
            r.username@.len() == 0,
            r.hostname@.len() == 0,
            r.home_dir@.len() == 0,
            r.index_dir@.len() == 0,
            r.data_dir@.len() == 0,
    {
        UserSettings {
            id: None,
            username: String::new(),
            hostname: String::new(),
            home_dir: String::new(),
            index_dir: String::new(),
            data_dir: String::new(),
        }
    }
}

impl UserSettings {
    /// The settings of `username` on `hostname` with home `home_dir`: no id, and
    /// the user's index and data directories under the data location of `config`.
    pub fn for_user(config: &LocalInfo, username: String, hostname: String, home_dir: String) -> (r: UserSettings)
        ensures
            r.id is None,
            r.username@ == username@,
            r.hostname@ == hostname@,
            r.home_dir@ == home_dir@,
            r.index_dir@ == user_index_dir_of(config.data_location(), username@),
            r.data_dir@ == user_data_dir_of(config.data_location(), username@),
    {
        let index_dir = config.get_user_index_dir(username.as_str());
        let data_dir = config.get_user_data_dir(username.as_str());
        UserSettings { id: None, username, hostname, home_dir, index_dir, data_dir }
    }

    /// The settings of the user running the process, whose home is `home_dir`, on
    /// this machine, whose name holds no ASCII capital. Whatever names the system reports,
    /// the directories are those of that user.
    pub fn new(config: &LocalInfo, home_dir: String) -> (r: UserSettings)
        ensures
            r.id is None,
            no_ascii_uppercase(r.hostname@),
            r.home_dir@ == home_dir@,
            r.index_dir@ == user_index_dir_of(config.data_location(), r.username@),
            r.data_dir@ == user_data_dir_of(config.data_location(), r.username@),
    {
        let username = current_username();
        let hostname = current_hostname();
        Self::for_user(config, username, hostname, home_dir)
    }
}

} // verus!
