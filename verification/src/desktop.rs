//! The desktop front end's vocabulary: the events, responses and errors of its
//! core, and the state it keeps for the user.
use vstd::prelude::*;

use crate::local_info::{app_data_key, entries_view};
use crate::runtime::InstalledApp;
use crate::user_settings::current_username;
use crate::user_state::{find_location, keys_distinct, lookup, state_file_of, state_file_path};

pub use crate::engine::InternalEvent;
pub use crate::runtime::{ClientCommand, ClientQuery};

verus! {

/// An event the desktop core emits to its listeners.
#[derive(Debug)]
pub enum CoreEvent {
    InvalidateQuery(ClientQuery),
    InvalidateQueryDebounced(ClientQuery),
    NewThumbnail { cas_id: String },
    Log { message: String },
    DatabaseDisconnected { reason: Option<String> },
}

/// The desktop core's answer to a query.
#[derive(Debug, Clone, Copy, PartialEq, Eq)]
pub enum CoreResponse {
    ListApplications,
    FindFiles,
    OpenFile,
}

/// Why the desktop core could not answer.
#[derive(Debug, Clone, Copy, PartialEq, Eq)]
pub enum CoreError {
    QueryError,
}

/// The state the desktop front end keeps for its user: an identifier, the user's
/// name, the application's locations by name (no name recorded twice), and the
/// user's index.
#[derive(Debug)]
pub struct UserState {
    uuid: String,
    username: String,
    locations: Vec<(String, String)>,
    index: String,
}

impl UserState {
    #[verifier::type_invariant]
    spec fn names_unique(self) -> bool {
        keys_distinct(entries_view(self.locations@))
    }

    /// The identifier.
    pub closed spec fn id(self) -> Seq<char> {
        self.uuid@
    }

    /// The named locations, in order.
    pub closed spec fn locations(self) -> Seq<(Seq<char>, Seq<char>)> {
        entries_view(self.locations@)
    }

    /// The index path.
    pub closed spec fn index_path(self) -> Seq<char> {
        self.index@
    }

    /// A fresh state for the user running the process, with identifier `uuid` (a
    /// new random one, which the caller draws), no recorded locations and an empty
    /// index path.
    pub fn new(uuid: String) -> (s: UserState)
        ensures
            s.id() == uuid@,
            s.locations().len() == 0,
            s.index_path().len() == 0,
    {
        let username = current_username();
        let locations: Vec<(String, String)> = Vec::new();
        proof {
            assert(entries_view(locations@) =~= seq![]);
        }
        UserState { uuid, username, locations, index: String::new() }
    }

    /// Where saving writes the state: the state file in the data location, or
    /// nowhere when no data location is recorded.
    pub fn save(&self) -> (r: Option<String>)
        ensures
            match lookup(self.locations(), app_data_key()) {
                Some(app_data) => r matches Some(path) && path@ == state_file_of(app_data, self.id()),
                None => r is None,
            },
    {
        match find_location(&self.locations, "AppDataLocation") {
            Some(app_data) => Some(state_file_path(app_data.as_str(), self.uuid.as_str())),
            None => None,
        }
    }

    /// Loading leaves the state as it is.
    pub fn load(&self) {
    }
}

/// A file the user works with: its name and its type.
#[derive(Debug, Clone, PartialEq, Eq)]
pub struct File {
    pub name: String,
    pub file_type: String,
}

/// What the desktop front end knows of its user: the name, the applications,
/// the files and the locations.
#[derive(Debug, PartialEq, Eq)]
pub struct UserSettings {
    pub username: String,
    pub applications: Vec<InstalledApp>,
    pub files: Vec<File>,
    pub locations: Vec<String>,
}

impl UserSettings {
    /// A builder with no name and nothing added.
    pub fn builder() -> (b: UserSettingsBuilder)
        ensures
            b.username@.len() == 0,
            b.applications@.len() == 0,
            b.files@.len() == 0,
            b.locations@.len() == 0,
    {
        UserSettingsBuilder {
            username: String::new(),
            applications: Vec::new(),
            files: Vec::new(),
            locations: Vec::new(),
        }
    }
}

/// Gathers the parts of [`UserSettings`].
#[derive(Debug)]
pub struct UserSettingsBuilder {
    pub username: String,
    pub applications: Vec<InstalledApp>,
    pub files: Vec<File>,
    pub locations: Vec<String>,
}

impl UserSettingsBuilder {
    /// A builder for the user running the process, with nothing added.
    pub fn new() -> (b: UserSettingsBuilder)
        ensures
            b.applications@.len() == 0,
            b.files@.len() == 0,
            b.locations@.len() == 0,
    {
        UserSettingsBuilder {
            username: current_username(),
            applications: Vec::new(),
            files: Vec::new(),
            locations: Vec::new(),
        }
    }

    /// The settings gathered so far.
    pub fn build(self) -> (s: UserSettings)
        ensures
            s.username == self.username,
            s.applications == self.applications,
            s.files == self.files,
            s.locations == self.locations,
    {
        UserSettings {
            username: self.username,
            applications: self.applications,
            files: self.files,
            locations: self.locations,
        }
    }

    /// The same builder with `app` added after the other applications.
    pub fn add_application(self, app: InstalledApp) -> (b: UserSettingsBuilder)
        ensures
            b.applications@ == self.applications@.push(app),
            b.username == self.username,
            b.files == self.files,
            b.locations == self.locations,
    {
        let mut b = self;
        b.applications.push(app);
        b
    }

    /// The same builder with `file` added after the other files.
    pub fn add_file(self, file: File) -> (b: UserSettingsBuilder)
        ensures
            b.files@ == self.files@.push(file),
            b.username == self.username,
            b.applications == self.applications,
            b.locations == self.locations,
    {
        let mut b = self;
        b.files.push(file);
        b
    }

    /// The same builder with `location` added after the other locations.
    pub fn add_location(self, location: String) -> (b: UserSettingsBuilder)
        ensures
            b.locations@ == self.locations@.push(location),
            b.username == self.username,
            b.applications == self.applications,
            b.files == self.files,
    {
        let mut b = self;
        b.locations.push(location);
        b
    }
}

} // verus!
