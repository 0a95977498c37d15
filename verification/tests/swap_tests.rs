use save_swap::swap::backup_namespace_name;
use save_swap::swap::Outcome;
use save_swap::swap::OutcomeKind;
use save_swap::swap::Severity;
use save_swap::swap::Slot;
use save_swap::swap::SwapAction;
use save_swap::swap::SwapEvent;
use save_swap::swap::SwapResult;
use save_swap::swap::SwapState;
use std::collections::BTreeMap;

type Files = BTreeMap<String, Vec<u8>>;
type Disk = BTreeMap<(bool, String, String), Files>;

fn key(slot: &Slot) -> (bool, String, String) {
    (slot.backup, slot.profile.clone(), slot.game.clone())
}

fn place(backup: bool, profile: &str, game: &str) -> (bool, String, String) {
    (backup, profile.to_string(), game.to_string())
}

fn files(list: Vec<(&str, &str)>) -> Files {
    let mut f = Files::new();
    for (name, content) in list {
        f.insert(name.to_string(), content.as_bytes().to_vec());
    }
    f
}

fn strings(list: Vec<&str>) -> Vec<String> {
    list.into_iter().map(|s| s.to_string()).collect()
}

fn describe(action: &SwapAction) -> String {
    match action {
        SwapAction::PrepareBackups => "prepare".to_string(),
        SwapAction::Probe(s) => format!("probe {:?}", key(s)),
        SwapAction::Remove(s) => format!("remove {:?}", key(s)),
        SwapAction::Create(s) => format!("create {:?}", key(s)),
        SwapAction::Copy { from, to } => format!("copy {:?} -> {:?}", key(from), key(to)),
        SwapAction::Finish => "finish".to_string(),
    }
}

fn perform(disk: &mut Disk, action: &SwapAction, fail: &Vec<String>) -> SwapEvent {
    if fail.contains(&describe(action)) {
        return SwapEvent::Failed("disk said no".to_string());
    }
    match action {
        SwapAction::PrepareBackups => SwapEvent::Done,
        SwapAction::Probe(s) => SwapEvent::Present(disk.contains_key(&key(s))),
        SwapAction::Remove(s) => {
            disk.remove(&key(s));
            SwapEvent::Done
        }
        SwapAction::Create(s) => {
            disk.entry(key(s)).or_default();
            SwapEvent::Done
        }
        SwapAction::Copy { from, to } => {
            disk.entry(key(to)).or_default();
            match disk.get(&key(from)).cloned() {
                Some(tree) => {
                    let held = disk.get_mut(&key(to)).unwrap();
                    for (name, content) in tree {
                        held.insert(name, content);
                    }
                    SwapEvent::Done
                }
                None => SwapEvent::Failed("no such directory".to_string()),
            }
        }
        SwapAction::Finish => SwapEvent::Done,
    }
}

fn run(
    disk: &mut Disk,
    source: &str,
    source_is_backup: bool,
    targets: Vec<&str>,
    games: Vec<&str>,
    fail: Vec<String>,
) -> (SwapResult, Vec<String>) {
    let mut state =
        SwapState::start(source.to_string(), source_is_backup, strings(targets), strings(games));
    let mut trace = Vec::new();
    let mut steps = 0;
    while !state.finished() {
        let action = state.action();
        trace.push(describe(&action));
        let event = perform(disk, &action, &fail);
        state = state.advance(event);
        steps += 1;
        assert!(steps < 10_000);
    }
    assert!(matches!(state.action(), SwapAction::Finish));
    (state.result(), trace)
}

#[test]
fn swap_backs_up_target_and_copies_source() {
    let mut disk = Disk::new();
    disk.insert(place(false, "A", "100"), files(vec![("save.dat", "from A"), ("dir/x", "1")]));
    disk.insert(place(false, "B", "100"), files(vec![("save.dat", "from B"), ("old", "2")]));
    let before = disk.clone();
    let (result, trace) = run(&mut disk, "A", false, vec!["B"], vec!["100"], vec![]);
    assert!(result.success);
    assert_eq!(result.message, "All games swapped successfully!");
    assert_eq!(
        result.details,
        vec![
            "Backed up game 100 for profile B to dunabackups".to_string(),
            "Successfully swapped game 100 for profile B".to_string()
        ]
    );
    assert_eq!(disk.get(&place(true, "B", "100")), before.get(&place(false, "B", "100")));
    assert_eq!(disk.get(&place(false, "B", "100")), before.get(&place(false, "A", "100")));
    assert_eq!(disk.get(&place(false, "A", "100")), before.get(&place(false, "A", "100")));
    assert_eq!(
        trace,
        vec![
            "prepare".to_string(),
            format!("probe {:?}", place(false, "A", "100")),
            format!("probe {:?}", place(false, "B", "100")),
            format!("probe {:?}", place(true, "B", "100")),
            format!("create {:?}", place(true, "B", "100")),
            format!("copy {:?} -> {:?}", place(false, "B", "100"), place(true, "B", "100")),
            format!("remove {:?}", place(false, "B", "100")),
            format!("create {:?}", place(false, "B", "100")),
            format!("copy {:?} -> {:?}", place(false, "A", "100"), place(false, "B", "100")),
        ]
    );
}

#[test]
fn swap_replaces_an_earlier_backup() {
    let mut disk = Disk::new();
    disk.insert(place(false, "A", "100"), files(vec![("s", "a")]));
    disk.insert(place(false, "B", "100"), files(vec![("s", "b")]));
    disk.insert(place(true, "B", "100"), files(vec![("stale", "zzz")]));
    let (result, _) = run(&mut disk, "A", false, vec!["B"], vec!["100"], vec![]);
    assert!(result.success);
    assert_eq!(disk.get(&place(true, "B", "100")), Some(&files(vec![("s", "b")])));
    assert_eq!(disk.get(&place(false, "B", "100")), Some(&files(vec![("s", "a")])));
}

#[test]
fn swap_twice_leaves_source_data_in_target_and_backup() {
    let mut disk = Disk::new();
    disk.insert(place(false, "A", "100"), files(vec![("s", "a")]));
    disk.insert(place(false, "B", "100"), files(vec![("s", "b")]));
    let (first, _) = run(&mut disk, "A", false, vec!["B"], vec!["100"], vec![]);
    let once = disk.clone();
    let (second, _) = run(&mut disk, "A", false, vec!["B"], vec!["100"], vec![]);
    assert!(first.success && second.success);
    assert_eq!(disk.get(&place(false, "B", "100")), once.get(&place(false, "B", "100")));
    assert_eq!(disk.get(&place(false, "B", "100")), Some(&files(vec![("s", "a")])));
    assert_eq!(disk.get(&place(true, "B", "100")), Some(&files(vec![("s", "a")])));
    assert_eq!(disk.get(&place(false, "A", "100")), Some(&files(vec![("s", "a")])));
    assert_eq!(first.details, second.details);
}

#[test]
fn swap_into_a_target_without_data_makes_no_backup() {
    let mut disk = Disk::new();
    disk.insert(place(false, "A", "100"), files(vec![("s", "a")]));
    let (result, trace) = run(&mut disk, "A", false, vec!["B"], vec!["100"], vec![]);
    assert!(result.success);
    assert_eq!(result.details, vec!["Successfully swapped game 100 for profile B".to_string()]);
    assert_eq!(disk.get(&place(false, "B", "100")), Some(&files(vec![("s", "a")])));
    assert!(!disk.contains_key(&place(true, "B", "100")));
    assert_eq!(trace.len(), 5);
}

#[test]
fn swap_from_a_backup_profile() {
    let mut disk = Disk::new();
    disk.insert(place(true, "A", "100"), files(vec![("s", "kept")]));
    disk.insert(place(false, "B", "100"), files(vec![("s", "b")]));
    let (result, _) = run(&mut disk, "A", true, vec!["B"], vec!["100"], vec![]);
    assert!(result.success);
    assert_eq!(disk.get(&place(false, "B", "100")), Some(&files(vec![("s", "kept")])));
    assert_eq!(disk.get(&place(true, "B", "100")), Some(&files(vec![("s", "b")])));
    assert_eq!(disk.get(&place(true, "A", "100")), Some(&files(vec![("s", "kept")])));
}

#[test]
fn missing_source_yields_a_warning_for_each_target() {
    let mut disk = Disk::new();
    disk.insert(place(false, "B", "100"), files(vec![("s", "b")]));
    disk.insert(place(false, "C", "100"), files(vec![("s", "c")]));
    let before = disk.clone();
    let (result, _) = run(&mut disk, "A", false, vec!["B", "C"], vec!["100"], vec![]);
    assert!(result.success);
    assert_eq!(result.message, "All games swapped successfully!");
    assert_eq!(
        result.details,
        vec![
            "Warning: Source has no data for game 100 \u{2014} skipped for target B".to_string(),
            "Warning: Source has no data for game 100 \u{2014} skipped for target C".to_string()
        ]
    );
    assert_eq!(disk, before);
}

#[test]
fn pairs_are_worked_target_by_target() {
    let mut disk = Disk::new();
    disk.insert(place(false, "A", "1"), files(vec![("s", "a1")]));
    disk.insert(place(false, "A", "3"), files(vec![("s", "a3")]));
    disk.insert(place(false, "B", "1"), files(vec![("s", "b1")]));
    let (result, _) = run(&mut disk, "A", false, vec!["B", "C"], vec!["1", "2", "3"], vec![]);
    assert!(result.success);
    assert_eq!(
        result.details,
        vec![
            "Backed up game 1 for profile B to dunabackups".to_string(),
            "Successfully swapped game 1 for profile B".to_string(),
            "Warning: Source has no data for game 2 \u{2014} skipped for target B".to_string(),
            "Successfully swapped game 3 for profile B".to_string(),
            "Successfully swapped game 1 for profile C".to_string(),
            "Warning: Source has no data for game 2 \u{2014} skipped for target C".to_string(),
            "Successfully swapped game 3 for profile C".to_string(),
        ]
    );
    assert_eq!(disk.get(&place(false, "C", "3")), Some(&files(vec![("s", "a3")])));
    assert_eq!(disk.get(&place(true, "B", "1")), Some(&files(vec![("s", "b1")])));
}

#[test]
fn no_targets_or_no_games_finish_at_once() {
    let mut disk = Disk::new();
    disk.insert(place(false, "A", "1"), files(vec![("s", "a")]));
    let (result, trace) = run(&mut disk, "A", false, vec![], vec!["1"], vec![]);
    assert!(result.success);
    assert!(result.details.is_empty());
    assert_eq!(trace, vec!["prepare".to_string()]);
    let (result, trace) = run(&mut disk, "A", false, vec!["B"], vec![], vec![]);
    assert!(result.success);
    assert!(result.details.is_empty());
    assert_eq!(trace, vec!["prepare".to_string()]);
}

#[test]
fn backup_namespace_failure_does_not_end_the_transaction() {
    let mut disk = Disk::new();
    disk.insert(place(false, "A", "1"), files(vec![("s", "a")]));
    disk.insert(place(false, "B", "1"), files(vec![("s", "b")]));
    let fail = vec!["prepare".to_string(), format!("create {:?}", place(true, "B", "1"))];
    let (result, trace) = run(&mut disk, "A", false, vec!["B", "C"], vec!["1"], fail);
    assert!(result.success);
    assert_eq!(result.message, "All games swapped successfully!");
    assert_eq!(
        result.details,
        vec![
            "Warning: Failed to create backup dir for B/1: disk said no".to_string(),
            "Successfully swapped game 1 for profile C".to_string()
        ]
    );
    assert_eq!(trace[0], "prepare");
    assert_eq!(disk.get(&place(false, "B", "1")), Some(&files(vec![("s", "b")])));
    assert_eq!(disk.get(&place(false, "C", "1")), Some(&files(vec![("s", "a")])));
}

#[test]
fn missing_source_warns_even_without_backup_namespace() {
    let mut disk = Disk::new();
    disk.insert(place(false, "B", "100"), files(vec![("s", "b")]));
    let before = disk.clone();
    let (result, trace) =
        run(&mut disk, "A", false, vec!["B", "C", "D"], vec!["100"], vec!["prepare".to_string()]);
    assert!(result.success);
    assert_eq!(
        result.details,
        vec![
            "Warning: Source has no data for game 100 \u{2014} skipped for target B".to_string(),
            "Warning: Source has no data for game 100 \u{2014} skipped for target C".to_string(),
            "Warning: Source has no data for game 100 \u{2014} skipped for target D".to_string()
        ]
    );
    assert!(result.details.iter().all(|d| d.starts_with("Warning:")));
    assert_eq!(trace.len(), 4);
    assert_eq!(disk, before);
}

fn two_profiles() -> Disk {
    let mut disk = Disk::new();
    disk.insert(place(false, "A", "1"), files(vec![("s", "a")]));
    disk.insert(place(false, "B", "1"), files(vec![("s", "b")]));
    disk.insert(place(true, "B", "1"), files(vec![("s", "older")]));
    disk
}

#[test]
fn failure_to_remove_old_backup_skips_the_pair() {
    let mut disk = two_profiles();
    let fail = vec![format!("remove {:?}", place(true, "B", "1"))];
    let (result, _) = run(&mut disk, "A", false, vec!["B"], vec!["1"], fail);
    assert!(result.success);
    assert_eq!(
        result.details,
        vec!["Warning: Failed to remove old backup for B/1: disk said no".to_string()]
    );
    assert_eq!(disk, two_profiles());
}

#[test]
fn failure_to_create_backup_slot_skips_the_pair() {
    let mut disk = two_profiles();
    let fail = vec![format!("create {:?}", place(true, "B", "1"))];
    let (result, _) = run(&mut disk, "A", false, vec!["B"], vec!["1"], fail);
    assert!(result.success);
    assert_eq!(
        result.details,
        vec!["Warning: Failed to create backup dir for B/1: disk said no".to_string()]
    );
    assert_eq!(disk.get(&place(false, "B", "1")), Some(&files(vec![("s", "b")])));
}

#[test]
fn failure_to_back_up_skips_the_pair() {
    let mut disk = two_profiles();
    let fail = vec![format!("copy {:?} -> {:?}", place(false, "B", "1"), place(true, "B", "1"))];
    let (result, _) = run(&mut disk, "A", false, vec!["B"], vec!["1"], fail);
    assert!(result.success);
    assert_eq!(result.details, vec!["Warning: Backup failed for B/1: disk said no".to_string()]);
    assert_eq!(disk.get(&place(false, "B", "1")), Some(&files(vec![("s", "b")])));
}

#[test]
fn failure_to_clear_target_is_an_error() {
    let mut disk = two_profiles();
    let fail = vec![format!("remove {:?}", place(false, "B", "1"))];
    let (result, _) = run(&mut disk, "A", false, vec!["B"], vec!["1"], fail);
    assert!(!result.success);
    assert_eq!(result.message, "Some operations failed. Check details.");
    assert_eq!(
        result.details,
        vec![
            "Backed up game 1 for profile B to dunabackups".to_string(),
            "Error: Failed to clear target B/1: disk said no".to_string()
        ]
    );
    assert_eq!(disk.get(&place(true, "B", "1")), Some(&files(vec![("s", "b")])));
}

#[test]
fn failure_to_create_target_is_an_error() {
    let mut disk = two_profiles();
    let fail = vec![format!("create {:?}", place(false, "B", "1"))];
    let (result, _) = run(&mut disk, "A", false, vec!["B"], vec!["1"], fail);
    assert!(!result.success);
    assert_eq!(
        result.details[1],
        "Error: Failed to create target dir for B/1: disk said no".to_string()
    );
}

#[test]
fn failure_to_copy_is_an_error_and_other_pairs_go_on() {
    let mut disk = two_profiles();
    disk.insert(place(false, "C", "1"), files(vec![("s", "c")]));
    let fail = vec![format!("copy {:?} -> {:?}", place(false, "A", "1"), place(false, "B", "1"))];
    let (result, _) = run(&mut disk, "A", false, vec!["B", "C"], vec!["1"], fail);
    assert!(!result.success);
    assert_eq!(
        result.details,
        vec![
            "Backed up game 1 for profile B to dunabackups".to_string(),
            "Error: Failed to copy game 1 to B: disk said no".to_string(),
            "Backed up game 1 for profile C to dunabackups".to_string(),
            "Successfully swapped game 1 for profile C".to_string(),
        ]
    );
    assert_eq!(disk.get(&place(false, "C", "1")), Some(&files(vec![("s", "a")])));
}

#[test]
fn success_is_the_absence_of_error_lines() {
    for fail in [
        vec![],
        vec!["prepare".to_string()],
        vec!["prepare".to_string(), format!("create {:?}", place(true, "B", "1"))],
        vec![format!("remove {:?}", place(true, "B", "1"))],
        vec![format!("remove {:?}", place(false, "B", "1"))],
        vec![format!("create {:?}", place(false, "B", "1"))],
    ] {
        let mut disk = two_profiles();
        let (result, _) = run(&mut disk, "A", false, vec!["B"], vec!["1"], fail);
        let any_error = result.details.iter().any(|d| d.starts_with("Error:"));
        assert_eq!(result.success, !any_error);
    }
}

#[test]
fn events_of_the_wrong_sort_change_nothing() {
    let state = SwapState::start("A".to_string(), false, strings(vec!["B"]), strings(vec!["1"]));
    let state = state.advance(SwapEvent::Present(true));
    assert!(matches!(state.action(), SwapAction::PrepareBackups));
    let state = state.advance(SwapEvent::Done);
    assert!(matches!(state.action(), SwapAction::Probe(_)));
    let state = state.advance(SwapEvent::Done);
    let state = state.advance(SwapEvent::Failed("x".to_string()));
    match state.action() {
        SwapAction::Probe(slot) => assert_eq!(key(&slot), place(false, "A", "1")),
        other => panic!("unexpected {}", describe(&other)),
    }
    assert!(state.result().details.is_empty());
    let state = state.advance(SwapEvent::Present(false));
    assert!(state.finished());
    let state = state.advance(SwapEvent::Present(true));
    assert!(state.finished());
    assert_eq!(state.result().details.len(), 1);
}

#[test]
fn slots_lead_to_their_directories() {
    let primary = Slot { backup: false, profile: "42".to_string(), game: "100".to_string() };
    let backup = Slot { backup: true, profile: "42".to_string(), game: "100".to_string() };
    assert_eq!(primary.segments(), strings(vec!["42", "100"]));
    assert_eq!(backup.segments(), strings(vec!["dunabackups", "42", "100"]));
    assert_eq!(backup_namespace_name(), "dunabackups");
}

#[test]
fn lines_and_weights_of_outcomes() {
    let kinds = [
        (OutcomeKind::NoSource, Severity::Warning, "Warning: Source has no data for game G \u{2014} skipped for target T"),
        (OutcomeKind::OldBackupKept, Severity::Warning, "Warning: Failed to remove old backup for T/G: why"),
        (OutcomeKind::BackupDirFailed, Severity::Warning, "Warning: Failed to create backup dir for T/G: why"),
        (OutcomeKind::BackedUp, Severity::Info, "Backed up game G for profile T to dunabackups"),
        (OutcomeKind::BackupFailed, Severity::Warning, "Warning: Backup failed for T/G: why"),
        (OutcomeKind::ClearFailed, Severity::Error, "Error: Failed to clear target T/G: why"),
        (OutcomeKind::TargetDirFailed, Severity::Error, "Error: Failed to create target dir for T/G: why"),
        (OutcomeKind::Swapped, Severity::Info, "Successfully swapped game G for profile T"),
        (OutcomeKind::CopyFailed, Severity::Error, "Error: Failed to copy game G to T: why"),
    ];
    for (kind, severity, line) in kinds {
        let outcome = Outcome {
            kind,
            target: "T".to_string(),
            game: "G".to_string(),
            reason: "why".to_string(),
        };
        assert_eq!(outcome.line(), line);
        assert_eq!(kind.severity(), severity);
        assert_eq!(line.starts_with("Error:"), severity == Severity::Error);
    }
}
