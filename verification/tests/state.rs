use supabar::desktop::{File, UserSettings as DesktopSettings, UserSettingsBuilder};
use supabar::runtime::InstalledApp;
use supabar::desktop::UserState as DesktopState;
use supabar::engine::{Config, Index};
use supabar::local_info::LocalInfo;
use supabar::user::{load_or_create, platform_for_os, IndexHome, Platform};
use supabar::user_settings::UserSettings;
use supabar::user_state::{find_location, state_file_path, UserState};

fn info() -> LocalInfo {
    LocalInfo::from_locations("/data".to_string(), "/conf".to_string())
}

#[test]
fn mod_test_user_state() {
    let state = DesktopState::new(uuid::Uuid::new_v4().to_string());
    let _ = state;
    let config = info();
    let state = UserState::new(uuid::Uuid::new_v4().to_string(), config);
    let saved = state.save().unwrap();
    assert_eq!(state.load(), saved);
    let (index, locations) = state.parts();
    let again = UserState::from_parts(state.uuid().clone(), state.username().clone(), index, locations)
        .expect("the names of a state's locations are distinct");
    assert_eq!(again.uuid(), state.uuid());
    assert_eq!(again.username(), state.username());
    assert_eq!(again.parts(), state.parts());
    assert_eq!(again.save(), Some(saved.clone()));
    assert_eq!(again.load(), saved);
}

#[test]
fn desktop_state_without_locations_saves_nowhere() {
    let state = DesktopState::new("d-1".to_string());
    assert_eq!(state.save(), None);
    state.load();
}

#[test]
fn user_dirs() {
    let i = info();
    assert_eq!(i.get_user_data_dir("ann"), "/data/ann/");
    assert_eq!(i.get_user_index_dir("ann"), "/data/ann/idx/");
    assert_eq!(format!("{}idx/", i.get_user_data_dir("bo")), i.get_user_index_dir("bo"));
}

#[test]
fn local_info_locations() {
    let m = info().to_hashmap();
    assert_eq!(
        m,
        vec![
            ("AppDataLocation".to_string(), "/data".to_string()),
            ("AppConfigLocation".to_string(), "/conf".to_string())
        ]
    );
}

#[test]
fn config_locations() {
    let m = Config::from_locations("/a".to_string(), "/b".to_string()).to_hashmap();
    assert_eq!(m[0], ("AppDataLocation".to_string(), "/a".to_string()));
    assert_eq!(m[1], ("AppConfigLocation".to_string(), "/b".to_string()));
}

#[test]
fn user_index_is_empty() {
    assert_eq!(Index::create_user_index(&info()), "");
}

#[test]
fn settings_for_user() {
    let s = UserSettings::for_user(&info(), "ann".to_string(), "box".to_string(), "/home/ann".to_string());
    assert_eq!(s.id, None);
    assert_eq!(s.username, "ann");
    assert_eq!(s.hostname, "box");
    assert_eq!(s.home_dir, "/home/ann");
    assert_eq!(s.index_dir, "/data/ann/idx/");
    assert_eq!(s.data_dir, "/data/ann/");
}

#[test]
fn settings_for_current_user() {
    let s = UserSettings::new(&info(), "/home/me".to_string());
    assert_eq!(s.home_dir, "/home/me");
    assert_eq!(s.data_dir, format!("/data/{}/", s.username));
    assert_eq!(s.index_dir, format!("/data/{}/idx/", s.username));
    assert!(!s.hostname.chars().any(|c| c.is_ascii_uppercase()));
}

#[test]
fn default_settings_are_empty() {
    let s = UserSettings::default();
    assert_eq!(s.id, None);
    assert!(s.username.is_empty() && s.data_dir.is_empty());
}

#[test]
fn platform_codes() {
    assert_eq!(Platform::from(0), Platform::Unknown);
    assert_eq!(Platform::from(1), Platform::Windows);
    assert_eq!(Platform::from(2), Platform::MacOS);
    assert_eq!(Platform::from(3), Platform::Linux);
    assert_eq!(Platform::from(4), Platform::IOS);
    assert_eq!(Platform::from(5), Platform::Android);
    assert_eq!(Platform::from(6), Platform::Unknown);
    assert_eq!(Platform::from(-1), Platform::Unknown);
}

#[test]
fn platform_names() {
    assert_eq!(platform_for_os("linux"), Platform::Linux);
    assert_eq!(platform_for_os("windows"), Platform::Windows);
    assert_eq!(platform_for_os("macos"), Platform::MacOS);
    assert_eq!(platform_for_os("freebsd"), Platform::Unknown);
}

#[test]
fn user_from_settings() {
    let s = UserSettings::for_user(&info(), "ann".to_string(), "box".to_string(), "/home/ann".to_string());
    let u = load_or_create(s, "linux").unwrap();
    assert_eq!(u.id, 0);
    assert_eq!(u.username, "ann");
    assert_eq!(u.index_dir, "/data/ann/idx/");
    assert_eq!(u.platform, Platform::Linux);
    let job = IndexHome { user: u };
    assert_eq!(job.name(), "local_index");
    assert_eq!(job.user.home_dir, "/home/ann");
}

#[test]
fn fresh_state_paths() {
    let s = UserState::for_user("1234".to_string(), "ann".to_string(), info());
    assert_eq!(s.uuid(), "1234");
    assert_eq!(s.username(), "ann");
    assert_eq!(s.data_dir(), "/data");
    assert_eq!(s.save(), Some("/data/client_1234_state.toml".to_string()));
    assert_eq!(s.load(), "/data/client_1234_state.toml");
    let (index, locations) = s.parts();
    assert_eq!(index, "");
    assert_eq!(locations.len(), 2);
}

#[test]
fn state_without_data_location_saves_nowhere() {
    let s = UserState::from_parts(
        "u".to_string(),
        "ann".to_string(),
        String::new(),
        vec![("AppConfigLocation".to_string(), "/c".to_string())],
    )
    .unwrap();
    assert_eq!(s.save(), None);
}

#[test]
fn state_refuses_a_name_recorded_twice() {
    let twice = UserState::from_parts(
        "u".to_string(),
        "ann".to_string(),
        String::new(),
        vec![
            ("AppDataLocation".to_string(), "/one".to_string()),
            ("AppConfigLocation".to_string(), "/c".to_string()),
            ("AppDataLocation".to_string(), "/two".to_string()),
        ],
    );
    assert!(twice.is_none());
    let once = UserState::from_parts(
        "u".to_string(),
        "ann".to_string(),
        "/idx".to_string(),
        vec![("AppDataLocation".to_string(), "/one".to_string())],
    )
    .unwrap();
    assert_eq!(once.save(), Some("/one/client_u_state.toml".to_string()));
    assert_eq!(once.load(), "/one/client_u_state.toml");
    assert_eq!(once.parts().0, "/idx");
}

#[test]
fn first_location_wins() {
    let locations = vec![
        ("AppDataLocation".to_string(), "/one".to_string()),
        ("AppDataLocation".to_string(), "/two".to_string()),
    ];
    assert_eq!(find_location(&locations, "AppDataLocation"), Some("/one".to_string()));
    assert_eq!(find_location(&locations, "Other"), None);
}

#[test]
fn state_file_name() {
    assert_eq!(state_file_path("/x", "id"), "/x/client_id_state.toml");
}

#[test]
fn new_state_has_uuid() {
    let id = uuid::Uuid::new_v4().to_string();
    let s = UserState::new(id.clone(), info());
    assert_eq!(s.uuid(), &id);
    assert_eq!(s.data_dir(), "/data");
    assert_eq!(s.save(), Some(format!("/data/client_{}_state.toml", id)));
}

#[test]
fn desktop_settings_builder() {
    let empty = DesktopSettings::builder().build();
    assert_eq!(empty.username, "");
    let s = UserSettingsBuilder::new()
        .add_application(InstalledApp { name: "a".to_string(), executable: "/a".to_string() })
        .add_file(File { name: "f".to_string(), file_type: "txt".to_string() })
        .add_location("/home".to_string())
        .add_location("/tmp".to_string())
        .build();
    assert_eq!(s.applications.len(), 1);
    assert_eq!(s.files[0].file_type, "txt");
    assert_eq!(s.locations, vec!["/home".to_string(), "/tmp".to_string()]);
}
