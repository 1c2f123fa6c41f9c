//! The user the application serves, and the platform it runs on.
use vstd::prelude::*;

use crate::text::same_text;
use crate::user_settings::UserSettings;

verus! {

/// The operating system a user runs.
#[derive(Debug, Clone, Copy, PartialEq, Eq)]
pub enum Platform {
    Unknown,
    Windows,
    MacOS,
    Linux,
    IOS,
    Android,
}

/// The platform a stored platform code stands for: 1 to 5 are Windows, macOS,
/// Linux, iOS and Android; any other code is unknown.
pub open spec fn platform_of_code(val: i32) -> Platform {
    if val == 1 {
        Platform::Windows
    } else if val == 2 {
        Platform::MacOS
    } else if val == 3 {
        Platform::Linux
    } else if val == 4 {
        Platform::IOS
    } else if val == 5 {
        Platform::Android
    } else {
        Platform::Unknown
    }
}

impl From<i32> for Platform {
    fn from(val: i32) -> (p: Platform) {
        match val {
            1 => Platform::Windows,
            2 => Platform::MacOS,
            3 => Platform::Linux,
            4 => Platform::IOS,
            5 => Platform::Android,
            _ => Platform::Unknown,
        }
    }
}

impl vstd::std_specs::convert::FromSpecImpl<i32> for Platform {
    open spec fn obeys_from_spec() -> bool {
        true
    }

    open spec fn from_spec(v: i32) -> Platform {
        platform_of_code(v)
    }
}

/// The platform an operating system name stands for: `windows`, `macos` and
/// `linux` are known, any other name is unknown.
pub open spec fn platform_of_os(os: Seq<char>) -> Platform {
    if os == "windows"@ {
        Platform::Windows
    } else if os == "macos"@ {
        Platform::MacOS
    } else if os == "linux"@ {
        Platform::Linux
    } else {
        Platform::Unknown
    }
}

/// The platform of the operating system named `os`.
pub fn platform_for_os(os: &str) -> (p: Platform)
    ensures
        p == platform_of_os(os@),
{
    if same_text(os, "windows") {
        Platform::Windows
    } else if same_text(os, "macos") {
        Platform::MacOS
    } else if same_text(os, "linux") {
        Platform::Linux
    } else {
        Platform::Unknown
    }
}

/// Why a user could not be loaded.
#[derive(Debug, Clone, PartialEq, Eq)]
pub enum UserError {
    DatabaseError,
    ClientNotFound,
}

/// A user of the application.
#[derive(Debug, Clone)]
pub struct User {
    pub id: i32,
    pub username: String,
    pub home_dir: String,
    pub index_dir: String,
    pub data_dir: String,
    pub platform: Platform,
}

/// The user described by `user_settings`, on the operating system named `os`:
/// id 0, the settings' name and directories, and the platform of `os`.
pub fn load_or_create(user_settings: UserSettings, os: &str) -> (r: Result<User, UserError>)
    ensures
        r matches Ok(user) && user.id == 0 && user.username@ == user_settings.username@
            && user.home_dir@ == user_settings.home_dir@ && user.index_dir@ == user_settings.index_dir@
            && user.data_dir@ == user_settings.data_dir@ && user.platform == platform_of_os(os@),
{
    let platform = platform_for_os(os);
    Ok(
        User {
            id: 0,
            username: user_settings.username,
            home_dir: user_settings.home_dir,
            index_dir: user_settings.index_dir,
            data_dir: user_settings.data_dir,
            platform,
        },
    )
}

/// The job that indexes the documents in a user's home directory.
#[derive(Debug, Clone)]
pub struct IndexHome {
    pub user: User,
}

impl IndexHome {
    /// The name the job runs under: `local_index`.
    pub fn name(&self) -> (r: &'static str)
        ensures
            r@ == "local_index"@,
    {
        "local_index"
    }
}

} // verus!
