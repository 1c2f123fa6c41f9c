//! The engine's vocabulary: the events it emits and sends itself, its database
//! handle and the user index.
use vstd::prelude::*;

use crate::local_info::{LocalInfo, app_data_key, app_config_key, entries_view};

pub use crate::runtime::{
    ClientCommand, ClientCommandParseError, ClientQuery, CoreError, Response,
};

verus! {

/// The database the engine works with.
#[derive(Debug)]
pub struct Database;

/// The index of the user's files.
#[derive(Debug)]
pub struct Index;

impl Index {
    /// The path of the user index: empty, as no index is created yet.
    pub fn create_user_index(_config: &LocalInfo) -> (r: String)
        ensures
            r@.len() == 0,
    {
        String::new()
    }
}

/// The locations where the engine writes its data and its configuration.
#[derive(Debug)]
pub struct Config {
    app_data: String,
    config: String,
}

impl Config {
    /// The data location.
    pub closed spec fn data_location(self) -> Seq<char> {
        self.app_data@
    }

    /// The configuration location.
    pub closed spec fn config_location(self) -> Seq<char> {
        self.config@
    }

    /// The locations found for data and configuration.
    pub fn from_locations(app_data: String, config: String) -> (c: Config)
        ensures
            c.data_location() == app_data@,
            c.config_location() == config@,
    {
        Config { app_data, config }
    }

    /// The locations by name: the data location, then the configuration location.
    pub fn to_hashmap(self) -> (r: Vec<(String, String)>)
        ensures
            entries_view(r@) == seq![
                (app_data_key(), self.data_location()),
                (app_config_key(), self.config_location()),
            ],
    {
        let mut r = Vec::new();
        r.push(("AppDataLocation".to_owned(), self.app_data));
        r.push(("AppConfigLocation".to_owned(), self.config));
        proof {
            assert(entries_view(r@) =~= seq![
                (app_data_key(), self.data_location()),
                (app_config_key(), self.config_location()),
            ]);
        }
        r
    }
}

/// An event the engine sends itself about its jobs, each named by the job.
#[derive(Debug, Clone, PartialEq, Eq)]
pub enum InternalEvent {
    JobIngest(String),
    JobComplete(String),
}

/// An event the engine emits to its listeners.
#[derive(Debug, Clone, PartialEq, Eq)]
pub enum Event {
    Log { message: String },
    DatabaseDisconnected { reason: Option<String> },
}

} // verus!
