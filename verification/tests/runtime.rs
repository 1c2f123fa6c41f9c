use supabar::runtime::{
    exec_command, exec_query, installed_names, ClientCommand, ClientQuery, CoreError, InstalledApp, Response,
    RuntimeBuilder,
};
use supabar::local_info::LocalInfo;
use supabar::user_settings::UserSettings;

#[test]
fn parse_open_keeps_rest_of_line() {
    assert_eq!(
        ClientCommand::parse("open /tmp/a b"),
        ClientCommand::OpenFile { path: "/tmp/a b".to_string() }
    );
}

#[test]
fn parse_search() {
    assert_eq!(
        ClientCommand::parse("search cats"),
        ClientCommand::SearchFile { term: "cats".to_string() }
    );
}

#[test]
fn parse_open_without_argument() {
    assert_eq!(ClientCommand::parse("open"), ClientCommand::OpenFile { path: String::new() });
}

#[test]
fn parse_other_lines_name_apps() {
    assert_eq!(
        ClientCommand::parse("firefox"),
        ClientCommand::OpenApp { app_name: "firefox".to_string() }
    );
    assert_eq!(
        ClientCommand::parse("opening x"),
        ClientCommand::OpenApp { app_name: "opening x".to_string() }
    );
    assert_eq!(ClientCommand::parse(""), ClientCommand::OpenApp { app_name: String::new() });
}

#[test]
fn from_str_never_fails() {
    let c: ClientCommand = "search  two spaces".parse().unwrap();
    assert_eq!(c, ClientCommand::SearchFile { term: " two spaces".to_string() });
}

fn installed() -> Vec<InstalledApp> {
    vec![
        InstalledApp { name: "Firefox".to_string(), executable: "/usr/bin/firefox".to_string() },
        InstalledApp { name: "Files".to_string(), executable: "/usr/bin/nautilus".to_string() },
        InstalledApp { name: "Firefox".to_string(), executable: "/opt/firefox".to_string() },
    ]
}

#[test]
fn open_file_answers_path() {
    let r = exec_command(ClientCommand::OpenFile { path: "/a".to_string() }, &installed());
    assert_eq!(r.response, Ok(Response::OpenFile("/a".to_string())));
    assert_eq!(r.launch, None);
}

#[test]
fn search_answers_term() {
    let r = exec_command(ClientCommand::SearchFile { term: "cats".to_string() }, &installed());
    assert_eq!(r.response, Ok(Response::SearchFile(vec!["cats".to_string()])));
    assert_eq!(r.launch, None);
}

#[test]
fn open_app_starts_first_match() {
    let r = exec_command(ClientCommand::OpenApp { app_name: "Firefox".to_string() }, &installed());
    assert_eq!(r.response, Ok(Response::Success(())));
    assert_eq!(r.launch, Some("/usr/bin/firefox".to_string()));
}

#[test]
fn open_unknown_app_fails() {
    let r = exec_command(ClientCommand::OpenApp { app_name: "firefox".to_string() }, &installed());
    assert_eq!(r.response, Err(CoreError::CommandError));
    assert_eq!(r.launch, None);
}

#[test]
fn list_applications() {
    let r = exec_query(ClientQuery::ListApplications, vec!["a".to_string(), "b".to_string()]);
    assert_eq!(
        r,
        Ok(Response::ListApplications { applications: vec!["a".to_string(), "b".to_string()] })
    );
}

#[test]
fn builder_replaces_parts() {
    let b = RuntimeBuilder {
        user_settings: UserSettings::default(),
        config: LocalInfo::from_locations("/d".to_string(), "/c".to_string()),
    };
    let settings = UserSettings::for_user(
        &LocalInfo::from_locations("/x".to_string(), "/y".to_string()),
        "ann".to_string(),
        "host".to_string(),
        "/home/ann".to_string(),
    );
    let b = b.with_user_settings(settings);
    assert_eq!(b.user_settings.username, "ann");
    let b = b.with_config(LocalInfo::from_locations("/e".to_string(), "/f".to_string()));
    assert_eq!(b.config.get_user_data_dir("ann"), "/e/ann/");
    assert_eq!(b.user_settings.data_dir, "/x/ann/");
}

#[test]
fn names_of_installed_apps() {
    assert_eq!(
        installed_names(&installed()),
        vec!["Firefox".to_string(), "Files".to_string(), "Firefox".to_string()]
    );
    assert!(installed_names(&Vec::new()).is_empty());
}
