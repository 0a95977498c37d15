use save_swap::catalog::LibraryIndex;
use save_swap::games::count_profile_games;
use save_swap::games::get_game_info;
use save_swap::games::get_games_for_profile;
use save_swap::games::has_meaningful_game_data;
use save_swap::games::owned_game;
use save_swap::games::owned_list;
use save_swap::games::sort_by_key;
use save_swap::games::EntryInfo;
use save_swap::games::GameDir;
use save_swap::games::GameInfo;
use save_swap::games::KeyedGame;

fn file(name: &str) -> EntryInfo {
    EntryInfo { name: Some(name.to_string()), is_file: true }
}

fn folder(name: &str) -> EntryInfo {
    EntryInfo { name: Some(name.to_string()), is_file: false }
}

fn game_dir(name: &str, entries: Vec<EntryInfo>) -> GameDir {
    GameDir { name: name.to_string(), is_dir: true, entries: Some(entries), manifests: vec![] }
}

fn index(games: Vec<(&str, &str)>) -> LibraryIndex {
    let mut index = LibraryIndex::new();
    for (id, name) in games {
        index.insert(id.to_string(), name.to_string(), vec![format!("{}.exe", name)]);
    }
    index
}

fn pairs(list: &Vec<GameInfo>) -> Vec<(String, String)> {
    list.iter().map(|g| (g.id.clone(), g.name.clone())).collect()
}

fn pair(id: &str, name: &str) -> (String, String) {
    (id.to_string(), name.to_string())
}

#[test]
fn marker_only_directory_holds_no_data() {
    assert!(!has_meaningful_game_data(&None));
    assert!(!has_meaningful_game_data(&Some(vec![])));
    assert!(!has_meaningful_game_data(&Some(vec![file("remotecache.vdf")])));
    assert!(!has_meaningful_game_data(&Some(vec![file("RemoteCache.VDF")])));
    assert!(!has_meaningful_game_data(&Some(vec![file("remotecache.vdf"), file("REMOTECACHE.VDF")])));
    assert!(has_meaningful_game_data(&Some(vec![file("remotecache.vdf"), file("save.dat")])));
    assert!(has_meaningful_game_data(&Some(vec![folder("remote")])));
    assert!(has_meaningful_game_data(&Some(vec![folder("remotecache.vdf")])));
    assert!(has_meaningful_game_data(&Some(vec![EntryInfo { name: None, is_file: true }])));
    assert!(has_meaningful_game_data(&Some(vec![file("remotecache.vdf.bak")])));
}

#[test]
fn game_info_prefers_the_index() {
    let index = index(vec![("100", "Alpha")]);
    let manifests = vec![Some("\"name\" \"From Manifest\"".to_string())];
    assert_eq!(
        get_game_info(&index, &manifests, "100"),
        Some(("Alpha".to_string(), vec!["Alpha.exe".to_string()]))
    );
    assert_eq!(
        get_game_info(&index, &manifests, "200"),
        Some(("From Manifest".to_string(), vec![]))
    );
    assert_eq!(get_game_info(&index, &vec![None], "200"), None);
    assert_eq!(get_game_info(&index, &vec![], "200"), None);
}

#[test]
fn ownership_needs_digits_data_and_a_known_game() {
    let index = index(vec![("100", "Alpha"), ("200", "Beta")]);
    let owned = game_dir("100", vec![file("save.dat")]);
    assert_eq!(owned_game(&owned, &index).map(|g| (g.id, g.name)), Some(pair("100", "Alpha")));
    let marker_only = game_dir("200", vec![file("remotecache.vdf")]);
    assert!(owned_game(&marker_only, &index).is_none());
    let unknown = game_dir("300", vec![file("save.dat")]);
    assert!(owned_game(&unknown, &index).is_none());
    let not_numeric = game_dir("config", vec![file("localconfig.vdf")]);
    assert!(owned_game(&not_numeric, &index).is_none());
    let mut not_dir = game_dir("100", vec![file("save.dat")]);
    not_dir.is_dir = false;
    assert!(owned_game(&not_dir, &index).is_none());
    let mut unreadable = game_dir("100", vec![]);
    unreadable.entries = None;
    assert!(owned_game(&unreadable, &index).is_none());
    let mut by_manifest = game_dir("300", vec![file("save.dat")]);
    by_manifest.manifests = vec![None, Some("\"name\"\t\"Gamma\"".to_string())];
    assert_eq!(owned_game(&by_manifest, &index).map(|g| (g.id, g.name)), Some(pair("300", "Gamma")));
}

#[test]
fn games_are_counted_and_listed() {
    let index = index(vec![("100", "beta"), ("200", "Alpha"), ("400", "alpha")]);
    let dirs = vec![
        game_dir("100", vec![file("a")]),
        game_dir("config", vec![file("a")]),
        game_dir("200", vec![file("a")]),
        game_dir("300", vec![file("a")]),
        game_dir("400", vec![file("remotecache.vdf"), folder("remote")]),
        game_dir("500", vec![file("remotecache.vdf")]),
    ];
    assert_eq!(count_profile_games(&dirs, &index), 3);
    assert_eq!(
        pairs(&owned_list(&dirs, &index)),
        vec![pair("100", "beta"), pair("200", "Alpha"), pair("400", "alpha")]
    );
    assert_eq!(
        pairs(&get_games_for_profile(&dirs, &index)),
        vec![pair("200", "Alpha"), pair("400", "alpha"), pair("100", "beta")]
    );
    assert_eq!(count_profile_games(&vec![], &index), 0);
    assert!(get_games_for_profile(&vec![], &index).is_empty());
}

#[test]
fn games_with_equal_names_keep_their_order() {
    let index = index(vec![("3", "same"), ("1", "SAME"), ("2", "Same"), ("4", "Aaa"), ("5", "zzz")]);
    let dirs = vec![
        game_dir("5", vec![file("a")]),
        game_dir("3", vec![file("a")]),
        game_dir("1", vec![file("a")]),
        game_dir("4", vec![file("a")]),
        game_dir("2", vec![file("a")]),
    ];
    assert_eq!(
        pairs(&get_games_for_profile(&dirs, &index)),
        vec![pair("4", "Aaa"), pair("3", "same"), pair("1", "SAME"), pair("2", "Same"), pair("5", "zzz")]
    );
}

#[test]
fn names_are_compared_in_small_letters() {
    let index = index(vec![("1", "\u{c9}clair"), ("2", "zebra"), ("3", "Zulu"), ("4", "apple")]);
    let dirs = vec![
        game_dir("1", vec![file("a")]),
        game_dir("2", vec![file("a")]),
        game_dir("3", vec![file("a")]),
        game_dir("4", vec![file("a")]),
    ];
    let listed = pairs(&get_games_for_profile(&dirs, &index));
    let mut expected = vec![pair("1", "\u{c9}clair"), pair("2", "zebra"), pair("3", "Zulu"), pair("4", "apple")];
    expected.sort_by(|a, b| a.1.to_lowercase().cmp(&b.1.to_lowercase()));
    assert_eq!(listed, expected);
    assert_eq!(listed[0], pair("4", "apple"));
    assert_eq!(listed[3], pair("1", "\u{c9}clair"));
}

#[test]
fn sorting_by_key_is_stable() {
    let keyed = |id: &str, key: &str| KeyedGame {
        game: GameInfo { id: id.to_string(), name: id.to_string() },
        key: key.to_string(),
    };
    let list = vec![keyed("a", "m"), keyed("b", "c"), keyed("c", "m"), keyed("d", ""), keyed("e", "c")];
    let sorted: Vec<String> = sort_by_key(&list).iter().map(|k| k.game.id.clone()).collect();
    assert_eq!(sorted, vec!["d", "b", "e", "a", "c"]);
    assert!(sort_by_key(&vec![]).is_empty());
}
