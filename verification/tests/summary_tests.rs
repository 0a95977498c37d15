use save_swap::discovery::Profile;
use save_swap::summary::check_selection;
use save_swap::summary::find_source;
use save_swap::summary::find_targets;
use save_swap::summary::get_dir_stats;
use save_swap::summary::get_swap_summary;
use save_swap::summary::sum_source;
use save_swap::summary::totals_fit;
use save_swap::summary::walk_size;
use save_swap::summary::DirStats;
use save_swap::summary::EntryKind;
use save_swap::summary::FileMeta;
use save_swap::summary::SelectedGame;
use save_swap::summary::SummaryError;
use save_swap::summary::WalkEntry;
use save_swap::time::Timestamp;

fn profile(id: &str, backup: bool) -> Profile {
    Profile {
        id: id.to_string(),
        name: format!("name of {}", id),
        game_count: 1,
        is_backup: backup,
        path: format!("/data/{}", id),
        last_login: "Never".to_string(),
        last_activity: 0,
    }
}

fn at(secs: i64, nanos: u32) -> Option<Timestamp> {
    Some(Timestamp { secs, nanos })
}

fn file(size: u64, modified: Option<Timestamp>) -> WalkEntry {
    WalkEntry { kind: EntryKind::File, depth: 1, meta: Some(FileMeta { size, modified }) }
}

fn dir(depth: usize) -> WalkEntry {
    WalkEntry { kind: EntryKind::Dir, depth, meta: None }
}

fn game(id: &str, walk: Option<Vec<WalkEntry>>) -> SelectedGame {
    SelectedGame { id: id.to_string(), walk }
}

fn strings(list: Vec<&str>) -> Vec<String> {
    list.into_iter().map(|s| s.to_string()).collect()
}

#[test]
fn directory_tree_is_summed_up() {
    let walk = vec![
        dir(0),
        file(10, at(100, 0)),
        dir(1),
        file(5, at(300, 7)),
        WalkEntry { kind: EntryKind::File, depth: 2, meta: None },
        WalkEntry { kind: EntryKind::Other, depth: 1, meta: None },
        file(7, None),
        dir(2),
        file(1, at(300, 6)),
    ];
    assert_eq!(
        get_dir_stats(&walk),
        DirStats { total_size: 23, file_count: 5, folder_count: 2, latest_modified: at(300, 7) }
    );
    assert_eq!(
        get_dir_stats(&vec![]),
        DirStats { total_size: 0, file_count: 0, folder_count: 0, latest_modified: None }
    );
    assert_eq!(walk_size(&walk), Some(23));
    assert_eq!(walk_size(&vec![file(u64::MAX, None), file(1, None)]), None);
    assert_eq!(walk_size(&vec![file(u64::MAX, None), dir(1)]), Some(u64::MAX));
}

#[test]
fn source_is_summed_over_games() {
    let games = vec![
        game("1", Some(vec![dir(0), file(10, at(5, 0)), dir(1)])),
        game("2", None),
        game("3", Some(vec![dir(0), file(1, at(9, 0)), file(2, at(2, 0))])),
    ];
    assert!(totals_fit(&games));
    assert_eq!(
        sum_source(&games),
        DirStats { total_size: 13, file_count: 3, folder_count: 1, latest_modified: at(9, 0) }
    );
    let too_much = vec![
        game("1", Some(vec![file(u64::MAX, None)])),
        game("2", Some(vec![file(1, None)])),
    ];
    assert!(!totals_fit(&too_much));
    assert!(!totals_fit(&vec![game("1", Some(vec![file(u64::MAX, None), file(1, None)]))]));
    assert!(totals_fit(&vec![]));
}

#[test]
fn empty_selection_is_turned_down_first() {
    let profiles = vec![profile("1", false), profile("2", false)];
    let r = get_swap_summary(&profiles, "1", false, &strings(vec!["2"]), &vec![]);
    assert_eq!(r.err(), Some(SummaryError::NoGamesSelected));
    let r = get_swap_summary(&vec![], "9", true, &vec![], &vec![]);
    assert_eq!(r.err(), Some(SummaryError::NoGamesSelected));
    assert_eq!(check_selection(&vec![]), Err(SummaryError::NoGamesSelected));
    assert_eq!(check_selection(&strings(vec!["100"])), Ok(()));
    assert_eq!(SummaryError::NoGamesSelected.message(), "No games selected");
}

#[test]
fn unknown_source_is_turned_down() {
    let profiles = vec![profile("1", false), profile("2", false), profile("3", true)];
    let games = vec![game("100", None)];
    let r = get_swap_summary(&profiles, "9", false, &strings(vec!["2"]), &games);
    assert_eq!(r.err(), Some(SummaryError::SourceNotFound));
    let r = get_swap_summary(&profiles, "1", true, &strings(vec!["2"]), &games);
    assert_eq!(r.err(), Some(SummaryError::SourceNotFound));
    let r = get_swap_summary(&profiles, "3", false, &vec![], &games);
    assert_eq!(r.err(), Some(SummaryError::SourceNotFound));
    assert_eq!(SummaryError::SourceNotFound.message(), "Source profile not found");
}

#[test]
fn request_without_valid_target_is_turned_down() {
    let profiles = vec![profile("1", false), profile("2", false), profile("3", true)];
    let games = vec![game("100", None)];
    let r = get_swap_summary(&profiles, "1", false, &vec![], &games);
    assert_eq!(r.err(), Some(SummaryError::NoValidTargets));
    let r = get_swap_summary(&profiles, "1", false, &strings(vec!["3", "9"]), &games);
    assert_eq!(r.err(), Some(SummaryError::NoValidTargets));
    assert_eq!(SummaryError::NoValidTargets.message(), "No valid target profiles found");
}

#[test]
fn summary_names_source_targets_and_sums() {
    let profiles = vec![
        profile("3", true),
        profile("1", false),
        profile("2", false),
        profile("3", false),
        profile("2", true),
    ];
    let games = vec![
        game("100", Some(vec![dir(0), file(10, at(1700000000, 0)), dir(1), file(5, None)])),
        game("200", None),
    ];
    let r = get_swap_summary(&profiles, "3", true, &strings(vec!["3", "2", "7"]), &games);
    let summary = r.expect("summary");
    assert_eq!(summary.source.id, "3");
    assert!(summary.source.is_backup);
    assert_eq!(summary.source.name, "name of 3");
    let targets: Vec<(String, bool)> =
        summary.targets.iter().map(|p| (p.id.clone(), p.is_backup)).collect();
    assert_eq!(targets, vec![("2".to_string(), false), ("3".to_string(), false)]);
    assert_eq!(summary.source_total_size, 15);
    assert_eq!(summary.source_file_count, 2);
    assert_eq!(summary.source_folder_count, 1);
    assert_eq!(summary.source_last_modified.len(), 19);
    assert!(summary.source_last_modified.starts_with("2023-11-1"));
}

#[test]
fn summary_without_files_reads_unknown() {
    let profiles = vec![profile("1", false), profile("2", false)];
    let games = vec![game("100", None), game("200", Some(vec![dir(0), dir(1), file(3, None)]))];
    let summary = get_swap_summary(&profiles, "1", false, &strings(vec!["2"]), &games).expect("summary");
    assert_eq!(summary.source_last_modified, "Unknown");
    assert_eq!(summary.source_total_size, 3);
    assert_eq!(summary.source_file_count, 1);
    assert_eq!(summary.source_folder_count, 1);
}

#[test]
fn source_and_targets_are_found() {
    let profiles = vec![profile("1", false), profile("2", true), profile("2", false), profile("1", false)];
    assert_eq!(find_source(&profiles, "1", false), Some(0));
    assert_eq!(find_source(&profiles, "2", false), Some(2));
    assert_eq!(find_source(&profiles, "2", true), Some(1));
    assert_eq!(find_source(&profiles, "1", true), None);
    let targets: Vec<String> =
        find_targets(&profiles, &strings(vec!["1", "2"])).iter().map(|p| p.id.clone()).collect();
    assert_eq!(targets, vec!["1", "2", "1"]);
    assert!(find_targets(&profiles, &vec![]).is_empty());
}
