//! The state the application keeps for the current user between runs, and
//! where on disk it is kept.
use vstd::prelude::*;
use vstd::string::*;

use crate::engine::Index;
use crate::local_info::{LocalInfo, app_data_key, app_config_key, entries_view};
use crate::text::same_text;
use crate::user_settings::current_username;

verus! {

/// `i` is the first position whose name is `key`.
pub open spec fn is_first_key(entries: Seq<(Seq<char>, Seq<char>)>, key: Seq<char>, i: int) -> bool {
    &&& 0 <= i < entries.len()
    &&& entries[i].0 == key
    &&& forall|j: int| 0 <= j < i ==> entries[j].0 != key
}

/// Some entry is named `key`.
pub open spec fn has_key(entries: Seq<(Seq<char>, Seq<char>)>, key: Seq<char>) -> bool {
    exists|i: int| 0 <= i < entries.len() && #[trigger] entries[i].0 == key
}

/// The location recorded under `key`: that of its first entry.
pub open spec fn lookup(entries: Seq<(Seq<char>, Seq<char>)>, key: Seq<char>) -> Option<Seq<char>> {
    if has_key(entries, key) {
        Some(entries[choose|i: int| is_first_key(entries, key, i)].1)
    } else {
        None
    }
}

/// No name is recorded twice.
pub open spec fn keys_distinct(entries: Seq<(Seq<char>, Seq<char>)>) -> bool {
    forall|a: int, b: int| 0 <= a < b < entries.len() ==> #[trigger] entries[a].0 != #[trigger] entries[b].0
}

/// The file in which the state with id `uuid` is kept, in the data location
/// `app_data`: `<app data>/client_<uuid>_state.toml`.
pub open spec fn state_file_of(app_data: Seq<char>, uuid: Seq<char>) -> Seq<char> {
    app_data + "/client_"@ + uuid + "_state.toml"@
}

proof fn lemma_first_key_unique(entries: Seq<(Seq<char>, Seq<char>)>, key: Seq<char>, i: int)
    requires
        is_first_key(entries, key, i),
    ensures
        has_key(entries, key),
        lookup(entries, key) == Some(entries[i].1),
{
    assert(entries[i].0 == key);
    let c = choose|c: int| is_first_key(entries, key, c);
    assert(is_first_key(entries, key, c));
    if c < i {
        assert(entries[c].0 != key);
    } else if i < c {
        assert(entries[i].0 != key);
    }
}

/// The data location of the locations of a `LocalInfo` is its data location.
pub proof fn lemma_recorded_data_location(app_data: Seq<char>, app_config: Seq<char>)
    ensures
        lookup(seq![(app_data_key(), app_data), (app_config_key(), app_config)], app_data_key())
            == Some(app_data),
{
    let entries = seq![(app_data_key(), app_data), (app_config_key(), app_config)];
    assert(is_first_key(entries, app_data_key(), 0));
    lemma_first_key_unique(entries, app_data_key(), 0);
}

/// The location named `key` among the named locations, if any.
pub fn find_location(locations: &Vec<(String, String)>, key: &str) -> (r: Option<String>)
    ensures
        match r {
            Some(l) => lookup(entries_view(locations@), key@) == Some(l@),
            None => lookup(entries_view(locations@), key@) is None,
        },
{
    let ghost entries = entries_view(locations@);
    let mut i: usize = 0;
    while i < locations.len()
        invariant
            i <= locations@.len(),
            entries == entries_view(locations@),
            forall|j: int| 0 <= j < i ==> entries[j].0 != key@,
        decreases locations@.len() - i,
    {
        if same_text(locations[i].0.as_str(), key) {
            proof {
                lemma_first_key_unique(entries, key@, i as int);
            }
            return Some(locations[i].1.clone());
        }
        i = i + 1;
    }
    proof {
        if has_key(entries, key@) {
            let k = choose|k: int| 0 <= k < entries.len() && #[trigger] entries[k].0 == key@;
            assert(entries[k].0 != key@);
        }
    }
    None
}

/// Whether no name is recorded twice among the named locations.
pub fn names_distinct(locations: &Vec<(String, String)>) -> (b: bool)
    ensures
        b == keys_distinct(entries_view(locations@)),
{
    let ghost entries = entries_view(locations@);
    let mut i: usize = 0;
    while i < locations.len()
        invariant
            i <= locations@.len(),
            entries == entries_view(locations@),
            forall|a: int, b: int| 0 <= a < b < entries.len() && a < i ==> #[trigger] entries[a].0 != #[trigger] entries[b].0,
        decreases locations@.len() - i,
    {
        let mut j: usize = i + 1;
        while j < locations.len()
            invariant
                i < locations@.len(),
                i < j <= locations@.len(),
                entries == entries_view(locations@),
                forall|a: int, b: int| 0 <= a < b < entries.len() && a < i ==> #[trigger] entries[a].0 != #[trigger] entries[b].0,
                forall|b: int| i < b < j ==> entries[i as int].0 != #[trigger] entries[b].0,
            decreases locations@.len() - j,
        {
            if same_text(locations[i].0.as_str(), locations[j].0.as_str()) {
                proof {
                    assert(entries[i as int].0 == entries[j as int].0);
                }
                return false;
            }
            j = j + 1;
        }
        i = i + 1;
    }
    true
}

/// The path of the state file of `uuid` in the data location `app_data`.
pub fn state_file_path(app_data: &str, uuid: &str) -> (r: String)
    ensures
        r@ == state_file_of(app_data@, uuid@),
{
    let mut r = app_data.to_owned();
    r.append("/client_");
    r.append(uuid);
    r.append("_state.toml");
    r
}

/// The state kept for a user: an identifier, the user's name, the user's index,
/// and the application's locations by name, no name recorded twice.
#[derive(Debug)]
pub struct UserState {
    uuid: String,
    username: String,
    index: String,
    locations: Vec<(String, String)>,
}

impl UserState {
    #[verifier::type_invariant]
    spec fn names_unique(self) -> bool {
        keys_distinct(entries_view(self.locations@))
    }

    /// The identifier.
    pub closed spec fn id(self) -> Seq<char> {
        self.uuid@
    }

    /// The user's name.
    pub closed spec fn user(self) -> Seq<char> {
        self.username@
    }

    /// The identifier.
    pub fn uuid(&self) -> (r: &String)
        ensures
            r@ == self.id(),
    {
        &self.uuid
    }

    /// The user's name.
    pub fn username(&self) -> (r: &String)
        ensures
            r@ == self.user(),
    {
        &self.username
    }

    /// The index path.
    pub closed spec fn index_path(self) -> Seq<char> {
        self.index@
    }

    /// The named locations, in order.
    pub closed spec fn locations(self) -> Seq<(Seq<char>, Seq<char>)> {
        entries_view(self.locations@)
    }

    /// The file saving writes: the state file in the recorded data location, if
    /// one is recorded.
    pub open spec fn save_target(self) -> Option<Seq<char>> {
        match lookup(self.locations(), app_data_key()) {
            Some(app_data) => Some(state_file_of(app_data, self.id())),
            None => None,
        }
    }

    /// The file loading reads: the state file in the recorded data location.
    pub open spec fn load_source(self) -> Seq<char> {
        state_file_of(lookup(self.locations(), app_data_key())->0, self.id())
    }

    /// A state made of the given parts, or `None` when a name is recorded twice
    /// among the locations.
    pub fn from_parts(uuid: String, username: String, index: String, locations: Vec<(String, String)>) -> (r: Option<UserState>)
        ensures
            keys_distinct(entries_view(locations@)) ==> (r matches Some(s) && s.id() == uuid@
                && s.user() == username@ && s.index_path() == index@ && s.locations() == entries_view(locations@)),
            !keys_distinct(entries_view(locations@)) ==> r is None,
    {
        if names_distinct(&locations) {
            Some(UserState { uuid, username, index, locations })
        } else {
            None
        }
    }

    /// The index path and the named locations, as stored; no name occurs twice
    /// among the locations, so [`UserState::from_parts`] takes them back.
    pub fn parts(&self) -> (r: (String, Vec<(String, String)>))
        ensures
            r.0@ == self.index_path(),
            entries_view(r.1@) == self.locations(),
            keys_distinct(self.locations()),
    {
        proof {
            use_type_invariant(self);
        }
        let mut locations = Vec::new();
        let mut i: usize = 0;
        while i < self.locations.len()
            invariant
                i <= self.locations@.len(),
                locations@.len() == i,
                entries_view(locations@) =~= entries_view(self.locations@).take(i as int),
            decreases self.locations@.len() - i,
        {
            let entry = (self.locations[i].0.clone(), self.locations[i].1.clone());
            let ghost before = locations@;
            locations.push(entry);
            proof {
                assert(locations@ == before.push(entry));
                assert forall|k: int| 0 <= k < i + 1 implies #[trigger] entries_view(locations@)[k]
                    == entries_view(self.locations@).take(i + 1)[k] by {
                    if k < i {
                        assert(locations@[k] == before[k]);
                        assert(entries_view(before)[k] == entries_view(self.locations@).take(i as int)[k]);
                    }
                }
            }
            i = i + 1;
        }
        proof {
            assert(entries_view(self.locations@).take(self.locations@.len() as int) =~= entries_view(self.locations@));
        }
        (self.index.clone(), locations)
    }

    /// The state of user `username` with identifier `uuid`, for the locations of
    /// `config`: an empty index path, and the data and configuration locations.
    pub fn for_user(uuid: String, username: String, config: LocalInfo) -> (s: UserState)
        ensures
            s.id() == uuid@,
            s.user() == username@,
            s.index_path().len() == 0,
            s.locations() == seq![
                (app_data_key(), config.data_location()),
                (app_config_key(), config.config_location()),
            ],
    {
        let index = Index::create_user_index(&config);
        let locations = config.to_hashmap();
        proof {
            reveal_strlit("AppDataLocation");
            reveal_strlit("AppConfigLocation");
            assert(app_data_key().len() != app_config_key().len());
            let entries = entries_view(locations@);
            assert forall|a: int, b: int| 0 <= a < b < entries.len() implies #[trigger] entries[a].0
                != #[trigger] entries[b].0 by {
                assert(a == 0 && b == 1);
            }
        }
        UserState { uuid, username, index, locations }
    }

    /// A fresh state for the user running the process, with identifier `uuid` (a
    /// new random one, which the caller draws) and the locations of `config`.
    pub fn new(uuid: String, config: LocalInfo) -> (s: UserState)
        ensures
            s.id() == uuid@,
            s.index_path().len() == 0,
            s.locations() == seq![
                (app_data_key(), config.data_location()),
                (app_config_key(), config.config_location()),
            ],
    {
        let username = current_username();
        Self::for_user(uuid, username, config)
    }

    /// The data location.
    pub fn data_dir(&self) -> (r: String)
        requires
            has_key(self.locations(), app_data_key()),
        ensures
            lookup(self.locations(), app_data_key()) == Some(r@),
    {
        match find_location(&self.locations, "AppDataLocation") {
            Some(l) => l,
            None => {
                proof {
                    assert(false);
                }
                String::new()
            },
        }
    }

    /// Where saving writes the state: the state file in the data location, or
    /// nowhere when no data location is recorded.
    pub fn save(&self) -> (r: Option<String>)
        ensures
            match r {
                Some(path) => self.save_target() == Some(path@),
                None => self.save_target() is None,
            },
    {
        match find_location(&self.locations, "AppDataLocation") {
            Some(app_data) => Some(state_file_path(app_data.as_str(), self.uuid.as_str())),
            None => None,
        }
    }

    /// Where loading reads the state from: the state file in the data location.
    pub fn load(&self) -> (r: String)
        requires
            has_key(self.locations(), app_data_key()),
        ensures
            r@ == self.load_source(),
    {
        let app_data = self.data_dir();
        state_file_path(app_data.as_str(), self.uuid.as_str())
    }
}

/// Loading reads the file that saving writes: for a state with a recorded data
/// location, both are the state file of its identifier in that location.
pub proof fn lemma_load_reads_saved_file(s: UserState)
    requires
        has_key(s.locations(), app_data_key()),
    ensures
        s.save_target() == Some(s.load_source()),
        lookup(s.locations(), app_data_key()) matches Some(app_data) && s.load_source() == state_file_of(
            app_data,
            s.id(),
        ),
{
}

/// A state rebuilt from the identifier, user, index path and locations of
/// another (as `from_parts` takes back what `parts` gives) is the same state to
/// the library: it saves to the same file and loads from the same file.
pub proof fn lemma_rebuilt_state_same_file(s: UserState, t: UserState)
    requires
        t.id() == s.id(),
        t.user() == s.user(),
        t.index_path() == s.index_path(),
        t.locations() == s.locations(),
    ensures
        t.save_target() == s.save_target(),
        t.load_source() == s.load_source(),
{
}

} // verus!
