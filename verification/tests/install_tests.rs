use save_swap::install::catalog_segments;
use save_swap::install::config_segments;
use save_swap::install::data_root_name;
use save_swap::install::detect_steam;
use save_swap::install::detect_steam_path;
use save_swap::install::find_all_steamapps_dirs;
use save_swap::install::find_userdata_path;
use save_swap::install::home_candidates;
use save_swap::install::library_dir_name;
use save_swap::install::library_registry_name;
use save_swap::install::manifest_file_name;
use save_swap::install::registry_location;
use save_swap::install::validate_steam_path;
use save_swap::install::ChildInfo;
use save_swap::install::GivenPath;
use save_swap::install::InstallError;
use save_swap::install::Installation;
use save_swap::install::PathProbe;
use save_swap::install::Platform;

fn probe(path: &str, exists: bool, is_dir: bool) -> PathProbe {
    PathProbe { path: path.to_string(), exists, is_dir }
}

fn child(name: &str, is_dir: bool) -> ChildInfo {
    ChildInfo { name: name.to_string(), is_dir }
}

#[test]
fn installation_is_the_first_place_that_exists() {
    let places = vec![
        probe("/home/u/.steam/steam", false, false),
        probe("/home/u/.local/share/Steam", true, true),
        probe("/opt/steam", true, true),
    ];
    assert_eq!(detect_steam_path(&places), Some("/home/u/.local/share/Steam".to_string()));
    assert_eq!(detect_steam_path(&vec![probe("/x", false, true)]), None);
    assert_eq!(detect_steam_path(&vec![]), None);
    assert_eq!(detect_steam_path(&vec![probe("/file", true, false)]), Some("/file".to_string()));
}

#[test]
fn data_root_must_be_a_directory() {
    assert_eq!(find_userdata_path(&probe("/s/userdata", true, true)), Some("/s/userdata".to_string()));
    assert_eq!(find_userdata_path(&probe("/s/userdata", true, false)), None);
    assert_eq!(find_userdata_path(&probe("/s/userdata", false, false)), None);
    assert_eq!(find_userdata_path(&probe("/s/userdata", false, true)), None);
}

#[test]
fn detection_reports_both_roots() {
    let found = Some(Installation {
        path: "C:\\Steam".to_string(),
        data_root: probe("C:\\Steam\\userdata", true, true),
    });
    let roots = detect_steam(&found).expect("roots");
    assert_eq!(roots.userdata_path, "C:/Steam/userdata");
    assert_eq!(roots.steam_path, "C:/Steam");
    assert_eq!(detect_steam(&None).err(), Some(InstallError::NotDetected));
    let without = Some(Installation { path: "/s".to_string(), data_root: probe("/s/userdata", false, false) });
    assert_eq!(detect_steam(&without).err(), Some(InstallError::NoDataRootInside));
}

fn given(path: &str, exists: bool, is_dir: bool, file_name: Option<&str>, parent: Option<&str>, children: Option<Vec<ChildInfo>>, data_root: PathProbe) -> GivenPath {
    GivenPath {
        place: probe(path, exists, is_dir),
        file_name: file_name.map(|s| s.to_string()),
        parent: parent.map(|s| s.to_string()),
        children,
        data_root,
    }
}

#[test]
fn given_data_root_is_accepted() {
    let g = given(
        "C:\\Steam\\userdata",
        true,
        true,
        Some("userdata"),
        Some("C:\\Steam"),
        Some(vec![child("readme.txt", false), child("12345", true)]),
        probe("C:\\Steam\\userdata\\userdata", false, false),
    );
    let roots = validate_steam_path(&g).expect("roots");
    assert_eq!(roots.userdata_path, "C:/Steam/userdata");
    assert_eq!(roots.steam_path, "C:/Steam");
    let orphan = given("userdata", true, true, Some("userdata"), None, Some(vec![child("1", true)]), probe("userdata/userdata", false, false));
    let roots = validate_steam_path(&orphan).expect("roots");
    assert_eq!(roots.userdata_path, "userdata");
    assert_eq!(roots.steam_path, "userdata");
}

#[test]
fn given_installation_is_accepted() {
    let g = given("/opt/steam", true, true, Some("steam"), Some("/opt"), Some(vec![child("1", true)]), probe("/opt/steam/userdata", true, true));
    let roots = validate_steam_path(&g).expect("roots");
    assert_eq!(roots.userdata_path, "/opt/steam/userdata");
    assert_eq!(roots.steam_path, "/opt/steam");
    let nested = given("/s/userdata", true, true, Some("userdata"), Some("/s"), Some(vec![child("12345", false), child("abc", true)]), probe("/s/userdata/userdata", true, true));
    let roots = validate_steam_path(&nested).expect("roots");
    assert_eq!(roots.userdata_path, "/s/userdata/userdata");
    assert_eq!(roots.steam_path, "/s/userdata");
}

#[test]
fn given_path_is_turned_down() {
    let missing = given("/nowhere", false, false, Some("nowhere"), Some("/"), None, probe("/nowhere/userdata", true, true));
    assert_eq!(validate_steam_path(&missing).err(), Some(InstallError::PathMissing));
    let empty = given("/s/userdata", true, true, Some("userdata"), Some("/s"), Some(vec![]), probe("/s/userdata/userdata", false, false));
    assert_eq!(validate_steam_path(&empty).err(), Some(InstallError::NoDataRootAt));
    let unreadable = given("/s/userdata", true, true, Some("userdata"), Some("/s"), None, probe("/s/userdata/userdata", false, false));
    assert_eq!(validate_steam_path(&unreadable).err(), Some(InstallError::NoDataRootAt));
    let file = given("/s/userdata", true, false, Some("userdata"), Some("/s"), Some(vec![child("1", true)]), probe("/s/userdata/userdata", false, false));
    assert_eq!(validate_steam_path(&file).err(), Some(InstallError::NoDataRootAt));
    let other = given("/s/Userdata", true, true, Some("Userdata"), Some("/s"), Some(vec![child("1", true)]), probe("/s/Userdata/userdata", true, false));
    assert_eq!(validate_steam_path(&other).err(), Some(InstallError::NoDataRootAt));
}

#[test]
fn errors_in_words() {
    assert_eq!(InstallError::NotDetected.message(), "Could not detect Steam installation");
    assert_eq!(InstallError::NoDataRootInside.message(), "Could not find userdata folder in Steam directory");
    assert_eq!(InstallError::PathMissing.message(), "Path does not exist");
    assert_eq!(
        InstallError::NoDataRootAt.message(),
        "Could not find 'userdata' folder. Please select the Steam folder or the userdata folder directly."
    );
}

#[test]
fn library_directories_exist_and_occur_once() {
    let main = probe("/s/steamapps", true, true);
    let declared = vec![
        probe("/s/steamapps", true, true),
        probe("/mnt/a/steamapps", true, true),
        probe("/mnt/gone/steamapps", false, false),
        probe("/mnt/b/steamapps", true, false),
        probe("/mnt/a/steamapps", true, true),
    ];
    assert_eq!(
        find_all_steamapps_dirs(&main, &declared),
        vec!["/s/steamapps".to_string(), "/mnt/a/steamapps".to_string(), "/mnt/b/steamapps".to_string()]
    );
    let no_main = probe("/s/steamapps", false, false);
    assert_eq!(
        find_all_steamapps_dirs(&no_main, &declared),
        vec!["/s/steamapps".to_string(), "/mnt/a/steamapps".to_string(), "/mnt/b/steamapps".to_string()]
    );
    assert!(find_all_steamapps_dirs(&no_main, &vec![]).is_empty());
}

#[test]
fn names_of_the_layout() {
    assert_eq!(data_root_name(), "userdata");
    assert_eq!(library_dir_name(), "steamapps");
    assert_eq!(library_registry_name(), "libraryfolders.vdf");
    assert_eq!(catalog_segments(), vec!["appcache".to_string(), "appinfo.vdf".to_string()]);
    assert_eq!(config_segments(), vec!["config".to_string(), "localconfig.vdf".to_string()]);
    assert_eq!(manifest_file_name("440"), "appmanifest_440.acf");
    assert_eq!(registry_location(), ("Software\\Valve\\Steam".to_string(), "SteamPath".to_string()));
}

#[test]
fn usual_places_by_platform() {
    assert_eq!(
        home_candidates(Platform::Linux),
        vec![vec![".steam".to_string(), "steam".to_string()], vec![".local/share/Steam".to_string()]]
    );
    assert_eq!(
        home_candidates(Platform::MacOs),
        vec![vec!["Library/Application Support/Steam".to_string()]]
    );
    assert!(home_candidates(Platform::Windows).is_empty());
    assert!(home_candidates(Platform::Other).is_empty());
}
