//! Where the application keeps its data, and the per-user directories under it.
use vstd::prelude::*;
use vstd::string::*;

verus! {

/// The directory holding a user's data: `<app data>/<username>/`.
pub open spec fn user_data_dir_of(app_data: Seq<char>, username: Seq<char>) -> Seq<char> {
    app_data + "/"@ + username + "/"@
}

/// The directory holding a user's index: `<app data>/<username>/idx/`.
pub open spec fn user_index_dir_of(app_data: Seq<char>, username: Seq<char>) -> Seq<char> {
    app_data + "/"@ + username + "/"@ + "idx"@ + "/"@
}

/// The name under which the data location is recorded.
pub open spec fn app_data_key() -> Seq<char> {
    "AppDataLocation"@
}

/// The name under which the configuration location is recorded.
pub open spec fn app_config_key() -> Seq<char> {
    "AppConfigLocation"@
}

/// The named locations, as character sequences.
pub open spec fn entries_view(entries: Seq<(String, String)>) -> Seq<(Seq<char>, Seq<char>)> {
    entries.map_values(|e: (String, String)| (e.0@, e.1@))
}

/// The locations where the application writes its data and its configuration.
#[derive(Debug, Clone)]
pub struct LocalInfo {
    app_data: String,
    app_config: String,
}

impl LocalInfo {
    /// The data location.
    pub closed spec fn data_location(self) -> Seq<char> {
        self.app_data@
    }

    /// The configuration location.
    pub closed spec fn config_location(self) -> Seq<char> {
        self.app_config@
    }

    /// The locations found for data and configuration.
    pub fn from_locations(app_data: String, app_config: String) -> (info: LocalInfo)
        ensures
            info.data_location() == app_data@,
            info.config_location() == app_config@,
    {
        LocalInfo { app_data, app_config }
    }

    /// The directory for the data of `username`.
    pub fn get_user_data_dir(&self, username: &str) -> (r: String)
        ensures
            r@ == user_data_dir_of(self.data_location(), username@),
    {
        let mut r = self.app_data.clone();
        r.append("/");
        r.append(username);
        r.append("/");
        r
    }

    /// The directory for the index of `username`.
    pub fn get_user_index_dir(&self, username: &str) -> (r: String)
        ensures
            r@ == user_index_dir_of(self.data_location(), username@),
    {
        let mut r = self.app_data.clone();
        r.append("/");
        r.append(username);
        r.append("/");
        r.append("idx");
        r.append("/");
        r
    }

    /// The locations by name: the data location, then the configuration location.
    pub fn to_hashmap(self) -> (r: Vec<(String, String)>)
        ensures
            entries_view(r@) == seq![
                (app_data_key(), self.data_location()),
                (app_config_key(), self.config_location()),
            ],
    {
        let mut r = Vec::new();
        r.push(("AppDataLocation".to_owned(), self.app_data));
        r.push(("AppConfigLocation".to_owned(), self.app_config));
        proof {
            assert(entries_view(r@) =~= seq![
                (app_data_key(), self.data_location()),
                (app_config_key(), self.config_location()),
            ]);
        }
        r
    }
}

/// A user's index directory lies inside the user's data directory, in `idx/`.
pub proof fn lemma_index_dir_in_data_dir(app_data: Seq<char>, username: Seq<char>)
    ensures
        user_index_dir_of(app_data, username) == user_data_dir_of(app_data, username) + "idx/"@,
{
    reveal_strlit("idx/");
    reveal_strlit("idx");
    reveal_strlit("/");
    assert(user_index_dir_of(app_data, username) =~= user_data_dir_of(app_data, username) + "idx/"@);
}

} // verus!
