use save_swap::catalog::LibraryIndex;
use save_swap::guard::any_process_matches;
use save_swap::guard::candidate_executables;
use save_swap::guard::check_games_running;

fn strings(list: Vec<&str>) -> Vec<String> {
    list.into_iter().map(|s| s.to_string()).collect()
}

fn index() -> LibraryIndex {
    let mut index = LibraryIndex::new();
    index.insert("100".to_string(), "Alpha".to_string(), strings(vec!["alpha.exe", "alpha.sh"]));
    index.insert("200".to_string(), "Beta".to_string(), vec![]);
    index.insert("300".to_string(), "Gamma".to_string(), strings(vec!["Gamma.exe"]));
    index
}

#[test]
fn no_games_are_not_running() {
    assert!(!check_games_running(&index(), &vec![]));
    assert!(!check_games_running(&LibraryIndex::new(), &vec![]));
}

#[test]
fn games_absent_from_the_index_are_not_running() {
    assert!(!check_games_running(&index(), &strings(vec!["999"])));
    assert!(!check_games_running(&LibraryIndex::new(), &strings(vec!["100", "200"])));
    assert!(!check_games_running(&index(), &strings(vec!["200"])));
}

#[test]
fn games_with_unlikely_programs_are_not_running() {
    let mut index = LibraryIndex::new();
    index.insert(
        "1".to_string(),
        "One".to_string(),
        strings(vec!["no-such-program-7f3a9c1e5b2d.exe"]),
    );
    assert!(!check_games_running(&index, &strings(vec!["1"])));
}

#[test]
fn candidates_are_gathered_game_by_game() {
    assert_eq!(
        candidate_executables(&index(), &strings(vec!["300", "999", "200", "100", "300"])),
        strings(vec!["Gamma.exe", "alpha.exe", "alpha.sh", "Gamma.exe"])
    );
    assert!(candidate_executables(&index(), &vec![]).is_empty());
}

#[test]
fn process_names_match_without_regard_to_case() {
    let exes = strings(vec!["alpha.exe", "Gamma.exe"]);
    assert!(any_process_matches(&exes, &strings(vec!["init", "GAMMA.EXE"])));
    assert!(any_process_matches(&exes, &strings(vec!["alpha.exe"])));
    assert!(!any_process_matches(&exes, &strings(vec!["alpha", "gamma.exe.bak", ""])));
    assert!(!any_process_matches(&exes, &vec![]));
    assert!(!any_process_matches(&vec![], &strings(vec!["alpha.exe"])));
}
