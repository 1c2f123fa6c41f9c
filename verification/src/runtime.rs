//! The runtime's vocabulary (commands, queries, responses, events) and the
//! decisions it takes on each command and query.
use vstd::prelude::*;
use vstd::string::*;

use crate::local_info::LocalInfo;
use crate::text::same_text;
use crate::user_settings::UserSettings;

verus! {

/// A command a client sends to the runtime.
#[derive(Debug, PartialEq, Eq)]
pub enum ClientCommand {
    OpenFile { path: String },
    SearchFile { term: String },
    OpenApp { app_name: String },
}

/// The error of parsing a command line into a [`ClientCommand`].
#[derive(Debug, PartialEq, Eq)]
pub enum ClientCommandParseError {
    NotFound,
}

/// A query a client sends to the runtime.
#[derive(Debug, PartialEq, Eq)]
pub enum ClientQuery {
    ListApplications,
    ListFiles,
    SearchFiles,
    JobGetHistory,
    JobGetRunning,
}

/// The runtime's answer to a command or a query.
#[derive(Debug, PartialEq, Eq)]
pub enum Response {
    ListApplications { applications: Vec<String> },
    OpenFile(String),
    SearchFile(Vec<String>),
    Success(()),
}

/// Why the runtime could not answer.
#[derive(Debug, PartialEq, Eq)]
pub enum CoreError {
    QueryError,
    CommandError,
}

/// An event the runtime emits to its listeners.
#[derive(Debug)]
pub enum Event {
    Log { message: String },
    DatabaseDisconnected { reason: Option<String> },
    InvalidateQuery(ClientQuery),
    InvalidateQueryDebounced(ClientQuery),
}

/// An event the runtime sends to itself about its jobs, each named by the job.
#[derive(Debug)]
pub enum InternalEvent {
    JobIngest(String),
    JobQueue(String),
    JobComplete(String),
}

/// The position of the first space in `s`, or its length when it has none.
pub open spec fn is_first_space(s: Seq<char>, k: int) -> bool {
    &&& 0 <= k <= s.len()
    &&& k < s.len() ==> s[k] == ' '
    &&& forall|j: int| 0 <= j < k ==> s[j] != ' '
}

/// The position of the first space in `s`, or its length when it has none.
pub open spec fn first_space(s: Seq<char>) -> int {
    choose|k: int| is_first_space(s, k)
}

/// The word a command line starts with: everything before its first space.
pub open spec fn command_word(s: Seq<char>) -> Seq<char> {
    s.subrange(0, first_space(s))
}

/// The arguments of a command line: everything after its first space, or nothing
/// when it has no space.
pub open spec fn command_args(s: Seq<char>) -> Seq<char> {
    if first_space(s) < s.len() {
        s.subrange(first_space(s) + 1, s.len() as int)
    } else {
        seq![]
    }
}

proof fn lemma_first_space_unique(s: Seq<char>, k: int)
    requires
        is_first_space(s, k),
    ensures
        first_space(s) == k,
{
    let c = first_space(s);
    assert(is_first_space(s, c));
    if c < k {
        assert(s[c] != ' ');
    } else if k < c {
        assert(s[k] != ' ');
    }
}

/// `open <path>` reads as the word `open` with the argument `path`.
pub proof fn lemma_open_line(path: Seq<char>)
    ensures
        command_word("open "@ + path) == "open"@,
        command_args("open "@ + path) == path,
{
    reveal_strlit("open ");
    reveal_strlit("open");
    let s = "open "@ + path;
    assert(is_first_space(s, 4));
    lemma_first_space_unique(s, 4);
    assert(s.subrange(0, 4) =~= "open"@);
    assert(s.subrange(5, s.len() as int) =~= path);
}

/// `search <term>` reads as the word `search` with the argument `term`.
pub proof fn lemma_search_line(term: Seq<char>)
    ensures
        command_word("search "@ + term) == "search"@,
        command_args("search "@ + term) == term,
{
    reveal_strlit("search ");
    reveal_strlit("search");
    let s = "search "@ + term;
    assert(is_first_space(s, 6));
    lemma_first_space_unique(s, 6);
    assert(s.subrange(0, 6) =~= "search"@);
    assert(s.subrange(7, s.len() as int) =~= term);
}

/// A line without spaces is a single word with no arguments, so unless it is
/// `open` or `search` it names an application.
pub proof fn lemma_line_without_space(s: Seq<char>)
    requires
        forall|j: int| 0 <= j < s.len() ==> s[j] != ' ',
    ensures
        command_word(s) == s,
        command_args(s) == Seq::<char>::empty(),
{
    assert(is_first_space(s, s.len() as int));
    lemma_first_space_unique(s, s.len() as int);
    assert(s.subrange(0, s.len() as int) =~= s);
}

/// The command line `s` reads as `command`: `open <path>` opens a file, `search
/// <term>` searches files, and any other line names an application to open.
pub open spec fn reads_as(s: Seq<char>, command: ClientCommand) -> bool {
    &&& command_word(s) == "open"@ ==> (command matches ClientCommand::OpenFile { path }
        && path@ == command_args(s))
    &&& command_word(s) == "search"@ ==> (command matches ClientCommand::SearchFile { term }
        && term@ == command_args(s))
    &&& command_word(s) != "open"@ && command_word(s) != "search"@ ==> (
    command matches ClientCommand::OpenApp { app_name } && app_name@ == s)
}

impl ClientCommand {
    /// Reads a command line: `open <path>` opens a file, `search <term>` searches
    /// files, and any other line names an application to open.
    pub fn parse(s: &str) -> (command: ClientCommand)
        ensures
            reads_as(s@, command),
    {
        let n = s.unicode_len();
        let mut k: usize = 0;
        while k < n && s.get_char(k) != ' '
            invariant
                n == s@.len(),
                k <= n,
                forall|j: int| 0 <= j < k ==> s@[j] != ' ',
            decreases n - k,
        {
            k = k + 1;
        }
        proof {
            lemma_first_space_unique(s@, k as int);
        }
        let word = s.substring_char(0, k);
        let args = if k < n {
            s.substring_char(k + 1, n)
        } else {
            s.substring_char(n, n)
        };
        proof {
            reveal_strlit("open");
            reveal_strlit("search");
            assert("open"@.len() != "search"@.len());
            assert(k >= n ==> args@ =~= seq![]);
        }
        if same_text(word, "open") {
            ClientCommand::OpenFile { path: args.to_owned() }
        } else if same_text(word, "search") {
            ClientCommand::SearchFile { term: args.to_owned() }
        } else {
            ClientCommand::OpenApp { app_name: s.to_owned() }
        }
    }
}

impl std::str::FromStr for ClientCommand {
    type Err = ClientCommandParseError;

    /// Reads a command line as [`ClientCommand::parse`] does; it never fails.
    fn from_str(s: &str) -> (r: Result<ClientCommand, ClientCommandParseError>)
        ensures
            r matches Ok(command) && reads_as(s@, command),
    {
        Ok(ClientCommand::parse(s))
    }
}

/// An application installed on the system, as the runtime reads it: the name it is
/// listed under and the program that starts it.
#[derive(Debug, Clone, PartialEq, Eq)]
pub struct InstalledApp {
    pub name: String,
    pub executable: String,
}

/// The runtime's answer to a command, and the program it must start, if any.
#[derive(Debug, PartialEq, Eq)]
pub struct CommandOutcome {
    pub response: Result<Response, CoreError>,
    pub launch: Option<String>,
}

/// The first installed application listed under `name`, if any.
pub open spec fn is_first_named(installed: Seq<InstalledApp>, name: Seq<char>, i: int) -> bool {
    &&& 0 <= i < installed.len()
    &&& installed[i].name@ == name
    &&& forall|j: int| 0 <= j < i ==> installed[j].name@ != name
}

/// Some installed application is listed under `name`.
pub open spec fn is_installed(installed: Seq<InstalledApp>, name: Seq<char>) -> bool {
    exists|i: int| 0 <= i < installed.len() && #[trigger] installed[i].name@ == name
}

/// The position of the first installed application listed under `name`, if any.
fn find_installed(installed: &Vec<InstalledApp>, name: &String) -> (r: Option<usize>)
    ensures
        match r {
            Some(i) => is_first_named(installed@, name@, i as int),
            None => !is_installed(installed@, name@),
        },
{
    let mut i: usize = 0;
    while i < installed.len()
        invariant
            i <= installed@.len(),
            forall|j: int| 0 <= j < i ==> installed@[j].name@ != name@,
        decreases installed@.len() - i,
    {
        if installed[i].name == *name {
            return Some(i);
        }
        i = i + 1;
    }
    None
}

/// The names of the installed applications, as character sequences, in order.
pub open spec fn names_of_installed(installed: Seq<InstalledApp>) -> Seq<Seq<char>> {
    installed.map_values(|a: InstalledApp| a.name@)
}

/// The names the installed applications are listed under, in order.
pub fn installed_names(installed: &Vec<InstalledApp>) -> (names: Vec<String>)
    ensures
        names@.map_values(|n: String| n@) == names_of_installed(installed@),
{
    let mut names: Vec<String> = Vec::new();
    let mut i: usize = 0;
    while i < installed.len()
        invariant
            i <= installed@.len(),
            names@.map_values(|n: String| n@) == names_of_installed(installed@).take(i as int),
        decreases installed@.len() - i,
    {
        let ghost before = names@;
        names.push(installed[i].name.clone());
        proof {
            assert(names@.map_values(|n: String| n@) =~= before.map_values(|n: String| n@).push(
                installed@[i as int].name@,
            ));
            assert(names_of_installed(installed@).take(i + 1) =~= names_of_installed(installed@).take(
                i as int,
            ).push(installed@[i as int].name@));
        }
        i = i + 1;
    }
    proof {
        assert(names_of_installed(installed@).take(installed@.len() as int) =~= names_of_installed(installed@));
    }
    names
}

/// Answers a query. Only the list of applications is served: it is the names of
/// the installed applications, in the order given.
pub fn exec_query(query: ClientQuery, applications: Vec<String>) -> (r: Result<Response, CoreError>)
    requires
        query is ListApplications,
    ensures
        r matches Ok(Response::ListApplications { applications: listed }) && listed@ == applications@,
{
    Ok(Response::ListApplications { applications })
}

/// Carries out a command against the installed applications: opening a file and
/// searching answer with the path and the search term; opening an application
/// answers with success and starts the first application listed under the name,
/// or fails with a command error when no application has that name.
pub fn exec_command(command: ClientCommand, installed: &Vec<InstalledApp>) -> (r: CommandOutcome)
    ensures
        command matches ClientCommand::OpenFile { path } ==> (r.response matches Ok(
            Response::OpenFile(p),
        ) && p@ == path@ && r.launch is None),
        command matches ClientCommand::SearchFile { term } ==> (r.response matches Ok(
            Response::SearchFile(found),
        ) && found@.len() == 1 && found@[0]@ == term@ && r.launch is None),
        command matches ClientCommand::OpenApp { app_name } ==> {
            &&& is_installed(installed@, app_name@) ==> (r.response matches Ok(Response::Success(_))
                && exists|i: int|
                #![trigger installed@[i]]
                is_first_named(installed@, app_name@, i) && r.launch == Some(
                    installed@[i].executable,
                ))
            &&& !is_installed(installed@, app_name@) ==> (r.response matches Err(
                CoreError::CommandError,
            ) && r.launch is None)
        },
{
    match command {
        ClientCommand::OpenFile { path } => CommandOutcome {
            response: Ok(Response::OpenFile(path)),
            launch: None,
        },
        ClientCommand::SearchFile { term } => {
            let mut found = Vec::new();
            found.push(term);
            CommandOutcome { response: Ok(Response::SearchFile(found)), launch: None }
        },
        ClientCommand::OpenApp { app_name } => match find_installed(installed, &app_name) {
            Some(i) => CommandOutcome {
                response: Ok(Response::Success(())),
                launch: Some(installed[i].executable.clone()),
            },
            None => CommandOutcome { response: Err(CoreError::CommandError), launch: None },
        },
    }
}

/// Why the database could not be used.
#[derive(Debug, Clone, Copy, PartialEq, Eq)]
pub enum DatabaseError {
    MissingConnection,
    MalformedConfig,
    ClientError,
}

/// Why a job could not be run.
#[derive(Debug, Clone, PartialEq, Eq)]
pub enum JobError {
    CreateFailure { job_id: String },
    DatabaseError(),
}

/// What a runtime is built from: the user's settings and the application's
/// locations.
#[derive(Debug)]
pub struct RuntimeBuilder {
    pub user_settings: UserSettings,
    pub config: LocalInfo,
}

impl RuntimeBuilder {
    /// The same builder with the given locations.
    pub fn with_config(self, config: LocalInfo) -> (r: RuntimeBuilder)
        ensures
            r.config == config,
            r.user_settings == self.user_settings,
    {
        RuntimeBuilder { user_settings: self.user_settings, config }
    }

    /// The same builder with the given user settings.
    pub fn with_user_settings(self, user_settings: UserSettings) -> (r: RuntimeBuilder)
        ensures
            r.user_settings == user_settings,
            r.config == self.config,
    {
        RuntimeBuilder { user_settings, config: self.config }
    }
}

} // verus!
