//! A model of the disk, and what a swap transaction does to it.
//!
//! The model holds, for each slot that exists, the files under it. On it
//! every operation does what it is meant to do and none fails for a reason
//! of the disk's own. [`run`] plays a transaction against the model; the
//! proof functions of this module state what comes out.

use vstd::prelude::*;
use crate::swap::after_event;
use crate::swap::details_of;
use crate::swap::lemma_success_is_no_error_line;
use crate::swap::no_error_line;
use crate::swap::at_first_pair;
use crate::swap::in_phase;
use crate::swap::recorded;
use crate::swap::settled;
use crate::swap::well_formed;
use crate::swap::backup_slot;
use crate::swap::source_slot;
use crate::swap::target_slot;
use crate::swap::initial;
use crate::swap::pending_action;
use crate::swap::severity_of;
use crate::swap::succeeded;
use crate::swap::ActionView;
use crate::swap::EventView;
use crate::swap::OutcomeKind;
use crate::swap::OutcomeView;
use crate::swap::Phase;
use crate::swap::Severity;
use crate::swap::SlotView;
use crate::swap::StateView;

verus! {

/// The files under one slot: their contents by their path below the slot.
pub type Files = Map<Seq<char>, Seq<u8>>;

/// The slots that exist on a disk, each with its files.
pub type Disk = Map<SlotView, Files>;

/// The files under a directory after a tree was copied into it: those of the
/// tree, and what the directory held under other paths.
pub open spec fn copied_into(held: Files, tree: Files) -> Files {
    held.union_prefer_right(tree)
}

/// `disk` with the slot's directory in place: as it is where the slot
/// exists, with an empty directory where it does not.
pub open spec fn with_directory(disk: Disk, slot: SlotView) -> Disk {
    if disk.dom().contains(slot) {
        disk
    } else {
        disk.insert(slot, Map::empty())
    }
}

/// What an operation does to the disk, and the event it ends in. A copy first
/// puts the destination in place and fails where the origin does not exist.
/// The backup namespace can always be created; what a transaction does
/// where it cannot is the subject of [`lemma_missing_source_on_any_disk`]
/// and of `lemma_namespace_failure_is_passed_over`.
pub open spec fn performed(disk: Disk, action: ActionView) -> (Disk, EventView) {
    match action {
        ActionView::PrepareBackups => (disk, EventView::Done),
        ActionView::Probe(slot) => (disk, EventView::Present(disk.dom().contains(slot))),
        ActionView::Remove(slot) => (disk.remove(slot), EventView::Done),
        ActionView::Create(slot) => (with_directory(disk, slot), EventView::Done),
        ActionView::Copy { from, to } => {
            let ready = with_directory(disk, to);
            if ready.dom().contains(from) {
                (ready.insert(to, copied_into(ready[to], ready[from])), EventView::Done)
            } else {
                (ready, EventView::Failed(Seq::empty()))
            }
        },
        ActionView::Finish => (disk, EventView::Done),
    }
}

/// The transaction and the disk after at most `steps` operations: each
/// operation that is due is performed on the disk and its event handed to
/// the transaction, until the transaction is finished.
pub open spec fn run(s: StateView, disk: Disk, steps: nat) -> (StateView, Disk)
    decreases steps,
{
    if steps == 0 || s.phase == Phase::Finished {
        (s, disk)
    } else {
        let (next_disk, event) = performed(disk, pending_action(s));
        run(after_event(s, event), next_disk, (steps - 1) as nat)
    }
}

/// The transaction that copies one game from a source to one target.
pub open spec fn single_swap(
    source: Seq<char>,
    source_is_backup: bool,
    target: Seq<char>,
    game: Seq<char>,
) -> StateView {
    initial(source, source_is_backup, seq![target], seq![game])
}

/// One operation: the disk and the transaction after the operation that is
/// due.
pub open spec fn stepped(s: StateView, disk: Disk) -> (StateView, Disk) {
    let (next_disk, event) = performed(disk, pending_action(s));
    (after_event(s, event), next_disk)
}

proof fn lemma_run_unfold(s: StateView, disk: Disk, steps: nat)
    requires
        steps > 0,
        s.phase != Phase::Finished,
    ensures
        run(s, disk, steps) == run(stepped(s, disk).0, stepped(s, disk).1, (steps - 1) as nat),
{
}

/// The operations that it takes to back the target's data up: one more
/// where an earlier backup is in the way.
spec fn backup_operations(s: StateView, disk: Disk) -> int {
    if disk.dom().contains(backup_slot(s)) {
        4
    } else {
        3
    }
}

/// The part of a pair in which the target's data goes to its backup slot.
proof fn lemma_backup_stage(s: StateView, disk: Disk, steps: nat)
    requires
        s.phase == Phase::OldBackup,
        well_formed(s),
        disk.dom().contains(target_slot(s)),
        steps >= 4,
    ensures
        run(s, disk, steps) == run(
            in_phase(recorded(s, OutcomeKind::BackedUp, Seq::empty()), Phase::TargetClear),
            disk.insert(backup_slot(s), disk[target_slot(s)]),
            (steps - backup_operations(s, disk)) as nat,
        ),
{
    let to = target_slot(s);
    let kept = backup_slot(s);
    let saved = disk.insert(kept, disk[to]);
    let next = in_phase(recorded(s, OutcomeKind::BackedUp, Seq::empty()), Phase::TargetClear);
    assert(to != kept);
    let create = in_phase(s, Phase::BackupCreate);
    let copy = in_phase(s, Phase::BackupCopy);
    let cleared = disk.remove(kept);
    let ready = cleared.insert(kept, Map::<Seq<char>, Seq<u8>>::empty());
    assert(copied_into(ready[kept], ready[to]) =~= disk[to]);
    assert(ready.insert(kept, disk[to]) =~= saved);
    if disk.dom().contains(kept) {
        lemma_run_unfold(s, disk, steps);
        assert(stepped(s, disk) == (in_phase(s, Phase::BackupClear), disk));
        lemma_run_unfold(in_phase(s, Phase::BackupClear), disk, (steps - 1) as nat);
        assert(stepped(in_phase(s, Phase::BackupClear), disk) == (create, cleared));
        lemma_run_unfold(create, cleared, (steps - 2) as nat);
        assert(stepped(create, cleared) == (copy, ready));
        lemma_run_unfold(copy, ready, (steps - 3) as nat);
        assert(stepped(copy, ready) == (next, saved));
    } else {
        assert(disk.insert(kept, Map::<Seq<char>, Seq<u8>>::empty()) =~= ready);
        lemma_run_unfold(s, disk, steps);
        assert(stepped(s, disk) == (create, disk));
        lemma_run_unfold(create, disk, (steps - 1) as nat);
        assert(stepped(create, disk) == (copy, ready));
        lemma_run_unfold(copy, ready, (steps - 2) as nat);
        assert(stepped(copy, ready) == (next, saved));
    }
}

/// The part of a pair in which the source's data replaces the target's.
proof fn lemma_replace_stage(s: StateView, disk: Disk, steps: nat)
    requires
        s.phase == Phase::TargetClear,
        well_formed(s),
        disk.dom().contains(source_slot(s)),
        source_slot(s) != target_slot(s),
        steps >= 3,
    ensures
        run(s, disk, steps) == run(
            settled(s, OutcomeKind::Swapped, Seq::empty()),
            disk.insert(target_slot(s), disk[source_slot(s)]),
            (steps - 3) as nat,
        ),
{
    let from = source_slot(s);
    let to = target_slot(s);
    let create = in_phase(s, Phase::TargetCreate);
    let copy = in_phase(s, Phase::TargetCopy);
    let cleared = disk.remove(to);
    let ready = cleared.insert(to, Map::<Seq<char>, Seq<u8>>::empty());
    assert(copied_into(ready[to], ready[from]) =~= disk[from]);
    assert(ready.insert(to, disk[from]) =~= disk.insert(to, disk[from]));
    lemma_run_unfold(s, disk, steps);
    assert(stepped(s, disk) == (create, cleared));
    lemma_run_unfold(create, cleared, (steps - 1) as nat);
    assert(stepped(create, cleared) == (copy, ready));
    lemma_run_unfold(copy, ready, (steps - 2) as nat);
    assert(stepped(copy, ready) == (
        settled(s, OutcomeKind::Swapped, Seq::empty()),
        disk.insert(to, disk[from]),
    ));
}

/// Where the source of `s` would keep the data of the game at position `g`.
pub open spec fn source_place(s: StateView, g: int) -> SlotView {
    SlotView { backup: s.source_is_backup, profile: s.source, game: s.games[g] }
}

/// Whether the source holds data for none of the games of the request.
pub open spec fn source_absent(s: StateView, disk: Disk) -> bool {
    forall|g: int| 0 <= g < s.games.len() ==> !disk.dom().contains(#[trigger] source_place(s, g))
}

/// The position, among all pairs, of the pair of the target at position `t`
/// and the game at position `g`, where there are `games` games: pairs are
/// counted target by target.
pub open spec fn pair_position(t: int, g: int, games: int) -> int {
    t * games + g
}

/// The outcome of a pair that was skipped for want of source data.
pub open spec fn skipped(target: Seq<char>, game: Seq<char>) -> OutcomeView {
    OutcomeView { kind: OutcomeKind::NoSource, target, game, reason: Seq::empty() }
}

/// Whether the log of `s` holds, at the place of each pair that it reaches,
/// the outcome of skipping that pair.
pub open spec fn skips_in_place(s: StateView) -> bool {
    forall|t: int, g: int|
        0 <= t && 0 <= g < s.games.len() && #[trigger] pair_position(t, g, s.games.len() as int)
            < s.log.len() ==> t < s.targets.len() && s.log[pair_position(
            t,
            g,
            s.games.len() as int,
        )] == skipped(s.targets[t], s.games[g])
}

proof fn lemma_pair_position(t: int, g: int, u: int, h: int, games: int)
    requires
        0 <= t,
        0 <= u,
        0 <= g < games,
        0 <= h < games,
        pair_position(t, g, games) == pair_position(u, h, games),
    ensures
        t == u,
        g == h,
{
    if t < u {
        assert(u * games >= (t + 1) * games) by (nonlinear_arith)
            requires
                u >= t + 1,
                games >= 0,
        ;
        assert((t + 1) * games == t * games + games) by (nonlinear_arith);
    } else if u < t {
        assert(t * games >= (u + 1) * games) by (nonlinear_arith)
            requires
                t >= u + 1,
                games >= 0,
        ;
        assert((u + 1) * games == u * games + games) by (nonlinear_arith);
    }
}

/// Whether `s` has done nothing so far but skip pairs for want of source
/// data, one outcome for each pair that it has left behind.
spec fn only_skips(s: StateView, start: StateView) -> bool {
    &&& s.source == start.source
    &&& s.source_is_backup == start.source_is_backup
    &&& s.targets == start.targets
    &&& s.games == start.games
    &&& (s.phase == Phase::BackupRoot || s.phase == Phase::Source || s.phase == Phase::Finished)
    &&& well_formed(s)
    &&& forall|i: int| 0 <= i < s.log.len() ==> (#[trigger] s.log[i]).kind == OutcomeKind::NoSource
    &&& s.phase == Phase::BackupRoot ==> s.log.len() == 0
    &&& s.phase == Phase::Source ==> s.log.len() == s.target * s.games.len() + s.game
    &&& s.phase == Phase::Finished ==> s.log.len() == s.targets.len() * s.games.len()
    &&& skips_in_place(s)
}

/// Operations that `s` still needs when every pair is skipped.
spec fn skips_left(s: StateView) -> int {
    match s.phase {
        Phase::BackupRoot => (s.targets.len() * s.games.len()) as int + 1,
        Phase::Finished => 0,
        _ => (s.targets.len() * s.games.len()) as int - s.log.len(),
    }
}

proof fn lemma_pair_count(t: int, g: int, targets: int, games: int)
    requires
        0 <= t < targets,
        0 <= g < games,
    ensures
        t * games + g < targets * games,
        (t + 1) * games == t * games + games,
        0 * games == 0,
        t + 1 == targets ==> t * games + games == targets * games,
{
    assert((t + 1) * games == t * games + games) by (nonlinear_arith);
    assert((t + 1) * games <= targets * games) by (nonlinear_arith)
        requires
            t + 1 <= targets,
            games >= 0,
    ;
}

proof fn lemma_skip_event(s: StateView, start: StateView, event: EventView)
    requires
        only_skips(s, start),
        event != EventView::Present(true),
    ensures
        only_skips(after_event(s, event), start),
        awaited(s.phase, event) ==> 0 <= skips_left(after_event(s, event)) < skips_left(s),
{
    let next = after_event(s, event);
    let targets = s.targets.len() as int;
    let games = s.games.len() as int;
    if s.phase == Phase::BackupRoot {
        assert(0 * games == 0) by (nonlinear_arith);
        if targets == 0 || games == 0 {
            assert(targets * games == 0) by (nonlinear_arith)
                requires
                    targets == 0 || games == 0,
            ;
        } else {
            assert(targets * games >= 0) by (nonlinear_arith)
                requires
                    targets >= 0,
                    games >= 0,
            ;
        }
    } else if s.phase == Phase::Source && event == EventView::Present(false) {
        lemma_pair_count(s.target, s.game, targets, games);
        assert(next == settled(s, OutcomeKind::NoSource, Seq::empty()));
        assert forall|t: int, g: int|
            0 <= t && 0 <= g < next.games.len() && #[trigger] pair_position(t, g, games)
                < next.log.len() implies t < next.targets.len() && next.log[pair_position(
            t,
            g,
            games,
        )] == skipped(next.targets[t], next.games[g]) by {
            if pair_position(t, g, games) == s.log.len() {
                assert(pair_position(s.target, s.game, games) == s.log.len());
                lemma_pair_position(t, g, s.target, s.game, games);
            } else {
                assert(next.log[pair_position(t, g, games)] == s.log[pair_position(t, g, games)]);
            }
        }
    }
}

proof fn lemma_skip_step(s: StateView, start: StateView, disk: Disk)
    requires
        only_skips(s, start),
        source_absent(start, disk),
        s.phase != Phase::Finished,
    ensures
        only_skips(stepped(s, disk).0, start),
        stepped(s, disk).1 == disk,
        0 <= skips_left(stepped(s, disk).0) < skips_left(s),
{
    if s.phase == Phase::Source {
        assert(source_slot(s) == source_place(start, s.game));
    }
    lemma_skip_event(s, start, performed(disk, pending_action(s)).1);
}

/// The transaction after a row of events, taken in one by one.
pub open spec fn after_events(s: StateView, events: Seq<EventView>) -> StateView
    decreases events.len(),
{
    if events.len() == 0 {
        s
    } else {
        after_event(after_events(s, events.drop_last()), events.last())
    }
}

/// Whether no event of the row says that a probe found its directory.
pub open spec fn nothing_found(events: Seq<EventView>) -> bool {
    forall|i: int| 0 <= i < events.len() ==> #[trigger] events[i] != EventView::Present(true)
}

/// Whether the only operations that `s` can be waiting for are the creation
/// of the backup namespace and the probe of a source slot.
pub open spec fn touches_no_target(s: StateView) -> bool {
    s.phase == Phase::BackupRoot || s.phase == Phase::Source || s.phase == Phase::Finished
}

/// Missing source data, on any disk. As long as no probe finds its
/// directory, whatever else the disk answers and whether or not the backup
/// namespace could be created, a transaction asks for nothing but that
/// creation and probes of the source; it is a success; and its log holds
/// warnings about missing source data and nothing else, the one for a pair
/// at the place of that pair, one for each pair of target and game once it
/// is finished.
pub proof fn lemma_missing_source_on_any_disk(
    source: Seq<char>,
    source_is_backup: bool,
    targets: Seq<Seq<char>>,
    games: Seq<Seq<char>>,
    events: Seq<EventView>,
)
    requires
        nothing_found(events),
    ensures
        ({
            let end = after_events(initial(source, source_is_backup, targets, games), events);
            &&& touches_no_target(end)
            &&& succeeded(end)
            &&& no_error_line(details_of(end))
            &&& forall|i: int|
                0 <= i < end.log.len() ==> (#[trigger] end.log[i]).kind == OutcomeKind::NoSource
            &&& end.targets == targets && end.games == games && skips_in_place(end)
            &&& end.phase == Phase::Finished ==> end.log.len() == targets.len() * games.len()
        }),
{
    let start = initial(source, source_is_backup, targets, games);
    lemma_skip_events(start, events);
    lemma_success_is_no_error_line(after_events(start, events));
}

proof fn lemma_skip_events(start: StateView, events: Seq<EventView>)
    requires
        only_skips(start, start),
        nothing_found(events),
    ensures
        only_skips(after_events(start, events), start),
    decreases events.len(),
{
    if events.len() > 0 {
        let before = events.drop_last();
        assert forall|i: int| 0 <= i < before.len() implies #[trigger] before[i]
            != EventView::Present(true) by {
            assert(before[i] == events[i]);
        }
        lemma_skip_events(start, before);
        lemma_skip_event(after_events(start, before), start, events.last());
    }
}

/// Missing source data, on the model of the disk. Where the source holds
/// data for none of the games, a transaction skips every pair: it leaves
/// the disk as it was and succeeds, and its log holds
/// warnings about missing source data and nothing else, the one for a pair
/// at the place of that pair; one for each pair of target and game once it
/// is finished, which it is after one operation for the backup namespace
/// and one for each pair.
pub proof fn lemma_missing_source_only_warns(
    source: Seq<char>,
    source_is_backup: bool,
    targets: Seq<Seq<char>>,
    games: Seq<Seq<char>>,
    disk: Disk,
    steps: nat,
)
    requires
        source_absent(initial(source, source_is_backup, targets, games), disk),
    ensures
        ({
            let (end, after) = run(initial(source, source_is_backup, targets, games), disk, steps);
            &&& after == disk
            &&& succeeded(end)
            &&& forall|i: int|
                0 <= i < end.log.len() ==> (#[trigger] end.log[i]).kind == OutcomeKind::NoSource
            &&& steps > targets.len() * games.len() ==> end.phase == Phase::Finished
            &&& end.phase == Phase::Finished ==> end.log.len() == targets.len() * games.len()
            &&& end.targets == targets && end.games == games && skips_in_place(end)
        }),
{
    let start = initial(source, source_is_backup, targets, games);
    lemma_skips(start, start, disk, steps);
}

proof fn lemma_skips(s: StateView, start: StateView, disk: Disk, steps: nat)
    requires
        only_skips(s, start),
        source_absent(start, disk),
    ensures
        only_skips(run(s, disk, steps).0, start),
        run(s, disk, steps).1 == disk,
        succeeded(run(s, disk, steps).0),
        steps >= skips_left(s) ==> run(s, disk, steps).0.phase == Phase::Finished,
    decreases steps,
{
    if steps == 0 || s.phase == Phase::Finished {
        if s.phase == Phase::Source {
            lemma_pair_count(s.target, s.game, s.targets.len() as int, s.games.len() as int);
        }
    } else {
        lemma_skip_step(s, start, disk);
        lemma_skips(stepped(s, disk).0, start, disk, (steps - 1) as nat);
    }
}


/// Whether an event is of the sort that a phase waits for: an answer for a
/// probe, success or failure for any other operation.
pub open spec fn awaited(phase: Phase, event: EventView) -> bool {
    match phase {
        Phase::Finished => false,
        Phase::Source | Phase::Target | Phase::OldBackup => event is Present,
        _ => !(event is Present),
    }
}

/// The operations that a pair can still take in a phase.
pub open spec fn phase_weight(phase: Phase) -> int {
    match phase {
        Phase::BackupRoot => 0,
        Phase::Source => 9,
        Phase::Target => 8,
        Phase::OldBackup => 7,
        Phase::BackupClear => 6,
        Phase::BackupCreate => 5,
        Phase::BackupCopy => 4,
        Phase::TargetClear => 3,
        Phase::TargetCreate => 2,
        Phase::TargetCopy => 1,
        Phase::Finished => 0,
    }
}

/// The pairs that come behind the one that `s` works on.
pub open spec fn pairs_behind(s: StateView) -> int {
    (s.targets.len() - 1 - s.target) * s.games.len() + (s.games.len() - 1 - s.game)
}

/// A bound on the operations that `s` still takes: nine for each pair that
/// is to come, what is left of the pair at hand, and one for the backup
/// namespace.
pub open spec fn operations_left(s: StateView) -> int {
    match s.phase {
        Phase::BackupRoot => 1 + 9 * ((s.targets.len() * s.games.len()) as int),
        Phase::Finished => 0,
        _ => phase_weight(s.phase) + 9 * pairs_behind(s),
    }
}

proof fn lemma_pairs_behind(t: int, g: int, targets: int, games: int)
    requires
        0 <= t < targets,
        0 <= g < games,
    ensures
        (targets - 1 - t) * games >= 0,
        t + 1 < targets ==> (targets - 1 - (t + 1)) * games + games == (targets - 1 - t) * games,
        (targets - 1) * games + games == targets * games,
{
    assert((targets - 1 - t) * games >= 0) by (nonlinear_arith)
        requires
            targets - 1 - t >= 0,
            games >= 0,
    ;
    assert((targets - 1 - (t + 1)) * games + games == (targets - 1 - t) * games)
        by (nonlinear_arith);
    assert((targets - 1) * games + games == targets * games) by (nonlinear_arith);
}

/// Progress. Every event of the sort that a transaction waits for brings it
/// nearer to its end.
pub proof fn lemma_progress(s: StateView, event: EventView)
    requires
        well_formed(s),
        awaited(s.phase, event),
    ensures
        0 <= operations_left(after_event(s, event)) < operations_left(s),
{
    let targets = s.targets.len() as int;
    let games = s.games.len() as int;
    if s.phase == Phase::BackupRoot {
        if targets > 0 && games > 0 {
            lemma_pairs_behind(0, 0, targets, games);
        } else {
            assert(targets * games == 0) by (nonlinear_arith)
                requires
                    targets == 0 || games == 0,
            ;
        }
    } else {
        lemma_pairs_behind(s.target, s.game, targets, games);
    }
}

/// Termination. On the model of the disk a transaction is finished after at
/// most one operation for the backup namespace and nine for each pair of
/// target and game.
pub proof fn lemma_run_ends(s: StateView, disk: Disk, steps: nat)
    requires
        well_formed(s),
        steps >= operations_left(s),
    ensures
        run(s, disk, steps).0.phase == Phase::Finished,
    decreases steps,
{
    if s.phase != Phase::Finished {
        let (next_disk, event) = performed(disk, pending_action(s));
        let targets = s.targets.len() as int;
        let games = s.games.len() as int;
        if s.phase == Phase::BackupRoot {
            assert(targets * games >= 0) by (nonlinear_arith)
                requires
                    targets >= 0,
                    games >= 0,
            ;
        } else {
            lemma_pairs_behind(s.target, s.game, targets, games);
        }
        lemma_progress(s, event);
        lemma_run_ends(after_event(s, event), next_disk, (steps - 1) as nat);
    }
}


/// Where the target at position `t` keeps the data of the game at position
/// `g`.
pub open spec fn target_place(s: StateView, t: int, g: int) -> SlotView {
    SlotView { backup: false, profile: s.targets[t], game: s.games[g] }
}

/// Where the backup of that data goes.
pub open spec fn backup_place(s: StateView, t: int, g: int) -> SlotView {
    SlotView { backup: true, profile: s.targets[t], game: s.games[g] }
}

/// Whether no name occurs twice in `names`.
pub open spec fn distinct(names: Seq<Seq<char>>) -> bool {
    forall|i: int, j: int| 0 <= i < j < names.len() ==> names[i] != names[j]
}

/// Whether a request can be served in full: no target and no game is named
/// twice, the source is none of the targets, and the source holds data for
/// every game.
pub open spec fn servable(s: StateView, disk: Disk) -> bool {
    &&& distinct(s.targets)
    &&& distinct(s.games)
    &&& forall|t: int| 0 <= t < s.targets.len() ==> #[trigger] s.targets[t] != s.source
    &&& forall|g: int|
        0 <= g < s.games.len() ==> disk.dom().contains(#[trigger] source_place(s, g))
}

/// Whether a slot is on `after` what it was on `before`.
pub open spec fn untouched(before: Disk, after: Disk, slot: SlotView) -> bool {
    before.dom().contains(slot) == after.dom().contains(slot) && before[slot] == after[slot]
}

/// Whether the pair of the target at `t` and the game at `g` is swapped on
/// `after`, seen from `before`: the target holds what the source held, and
/// the backup slot holds what the target held, where it held anything, and
/// is untouched where it did not.
pub open spec fn pair_swapped(before: Disk, after: Disk, s: StateView, t: int, g: int) -> bool {
    &&& after.dom().contains(target_place(s, t, g))
    &&& after[target_place(s, t, g)] == before[source_place(s, g)]
    &&& if before.dom().contains(target_place(s, t, g)) {
        after.dom().contains(backup_place(s, t, g)) && after[backup_place(s, t, g)]
            == before[target_place(s, t, g)]
    } else {
        untouched(before, after, backup_place(s, t, g))
    }
}

/// Whether `s` has the pair of `t` and `g` behind it.
spec fn pair_done(s: StateView, t: int, g: int) -> bool {
    s.phase == Phase::Finished || t < s.target || (t == s.target && g < s.game)
}

/// Whether `s` and `now` are what a transaction that started as `start` on
/// the disk `before` comes to between two pairs, when nothing has failed.
spec fn between_pairs(s: StateView, now: Disk, start: StateView, before: Disk) -> bool {
    &&& s.source == start.source
    &&& s.source_is_backup == start.source_is_backup
    &&& s.targets == start.targets
    &&& s.games == start.games
    &&& (s.phase == Phase::Source || s.phase == Phase::Finished)
    &&& well_formed(s)
    &&& succeeded(s)
    &&& servable(start, before)
    &&& forall|g: int|
        0 <= g < s.games.len() ==> untouched(before, now, #[trigger] source_place(start, g))
    &&& forall|t: int, g: int|
        0 <= t < s.targets.len() && 0 <= g < s.games.len() ==> if pair_done(s, t, g) {
            pair_swapped(before, now, start, t, g)
        } else {
            untouched(before, now, #[trigger] target_place(start, t, g)) && untouched(
                before,
                now,
                backup_place(start, t, g),
            )
        }
}

/// The end of a pair whose target holds no data: the target's directory is
/// created and the source's data copied there.
proof fn lemma_create_stage(s: StateView, disk: Disk, steps: nat)
    requires
        s.phase == Phase::TargetCreate,
        well_formed(s),
        disk.dom().contains(source_slot(s)),
        !disk.dom().contains(target_slot(s)),
        steps >= 2,
    ensures
        run(s, disk, steps) == run(
            settled(s, OutcomeKind::Swapped, Seq::empty()),
            disk.insert(target_slot(s), disk[source_slot(s)]),
            (steps - 2) as nat,
        ),
{
    let from = source_slot(s);
    let to = target_slot(s);
    let copy = in_phase(s, Phase::TargetCopy);
    let ready = disk.insert(to, Map::<Seq<char>, Seq<u8>>::empty());
    assert(copied_into(ready[to], ready[from]) =~= disk[from]);
    assert(ready.insert(to, disk[from]) =~= disk.insert(to, disk[from]));
    lemma_run_unfold(s, disk, steps);
    assert(stepped(s, disk) == (copy, ready));
    lemma_run_unfold(copy, ready, (steps - 1) as nat);
    assert(stepped(copy, ready) == (
        settled(s, OutcomeKind::Swapped, Seq::empty()),
        disk.insert(to, disk[from]),
    ));
}

/// The transaction behind a pair that went well.
spec fn pair_settled(s: StateView, disk: Disk) -> StateView {
    if disk.dom().contains(target_slot(s)) {
        settled(
            recorded(s, OutcomeKind::BackedUp, Seq::empty()),
            OutcomeKind::Swapped,
            Seq::empty(),
        )
    } else {
        settled(s, OutcomeKind::Swapped, Seq::empty())
    }
}

/// The disk behind a pair that went well.
spec fn pair_written(s: StateView, disk: Disk) -> Disk {
    if disk.dom().contains(target_slot(s)) {
        disk.insert(backup_slot(s), disk[target_slot(s)]).insert(
            target_slot(s),
            disk[source_slot(s)],
        )
    } else {
        disk.insert(target_slot(s), disk[source_slot(s)])
    }
}

/// The operations that a pair takes when it goes well.
spec fn pair_operations(s: StateView, disk: Disk) -> int {
    if disk.dom().contains(target_slot(s)) {
        5 + backup_operations(s, disk)
    } else {
        4
    }
}

/// One whole pair, from the probe of the source to the outcome.
proof fn lemma_pair(s: StateView, disk: Disk, steps: nat)
    requires
        s.phase == Phase::Source,
        well_formed(s),
        disk.dom().contains(source_slot(s)),
        source_slot(s) != target_slot(s),
        source_slot(s) != backup_slot(s),
        steps >= 9,
    ensures
        run(s, disk, steps) == run(
            pair_settled(s, disk),
            pair_written(s, disk),
            (steps - pair_operations(s, disk)) as nat,
        ),
{
    let probe = in_phase(s, Phase::Target);
    lemma_run_unfold(s, disk, steps);
    assert(stepped(s, disk) == (probe, disk));
    lemma_run_unfold(probe, disk, (steps - 1) as nat);
    if disk.dom().contains(target_slot(s)) {
        let old = in_phase(s, Phase::OldBackup);
        assert(stepped(probe, disk) == (old, disk));
        lemma_backup_stage(old, disk, (steps - 2) as nat);
        let saved = disk.insert(backup_slot(s), disk[target_slot(s)]);
        let clear = in_phase(recorded(old, OutcomeKind::BackedUp, Seq::empty()), Phase::TargetClear);
        let left = (steps - 2 - backup_operations(old, disk)) as nat;
        lemma_replace_stage(clear, saved, left);
        assert(settled(clear, OutcomeKind::Swapped, Seq::empty()) == pair_settled(s, disk));
        assert(saved.insert(target_slot(s), saved[source_slot(s)]) == pair_written(s, disk));
    } else {
        let create = in_phase(s, Phase::TargetCreate);
        assert(stepped(probe, disk) == (create, disk));
        lemma_create_stage(create, disk, (steps - 2) as nat);
        assert(settled(create, OutcomeKind::Swapped, Seq::empty()) == pair_settled(s, disk));
    }
}

/// A pair that went well leaves the transaction between two pairs again.
proof fn lemma_pair_keeps(s: StateView, now: Disk, start: StateView, before: Disk)
    requires
        between_pairs(s, now, start, before),
        s.phase == Phase::Source,
    ensures
        now.dom().contains(source_slot(s)),
        source_slot(s) != target_slot(s),
        source_slot(s) != backup_slot(s),
        between_pairs(pair_settled(s, now), pair_written(s, now), start, before),
        operations_left(pair_settled(s, now)) + 9 <= operations_left(s),
{
    let next = pair_settled(s, now);
    let written = pair_written(s, now);
    let targets = s.targets.len() as int;
    let games = s.games.len() as int;
    let from = source_slot(s);
    let to = target_slot(s);
    let kept = backup_slot(s);
    assert(from == source_place(start, s.game));
    assert(to == target_place(start, s.target, s.game));
    assert(kept == backup_place(start, s.target, s.game));
    assert(start.targets[s.target] != start.source);
    lemma_pairs_behind(s.target, s.game, targets, games);
    assert(untouched(before, now, to) && untouched(before, now, kept));
    assert(untouched(before, now, from));
    assert forall|g: int| 0 <= g < next.games.len() implies untouched(
        before,
        written,
        #[trigger] source_place(start, g),
    ) by {
        assert(start.targets[s.target] != start.source);
        assert(untouched(before, now, source_place(start, g)));
    }
    assert forall|t: int, g: int| 0 <= t < next.targets.len() && 0 <= g < next.games.len() implies if pair_done(
        next,
        t,
        g,
    ) {
        pair_swapped(before, written, start, t, g)
    } else {
        untouched(before, written, #[trigger] target_place(start, t, g)) && untouched(
            before,
            written,
            backup_place(start, t, g),
        )
    } by {
        if t == s.target && g == s.game {
            assert(pair_done(next, t, g));
        } else {
            if t != s.target {
                if t < s.target {
                    assert(start.targets[t] != start.targets[s.target]);
                } else {
                    assert(start.targets[s.target] != start.targets[t]);
                }
            } else {
                if g < s.game {
                    assert(start.games[g] != start.games[s.game]);
                } else {
                    assert(start.games[s.game] != start.games[g]);
                }
            }
            assert(target_place(start, t, g) != to);
            assert(backup_place(start, t, g) != kept);
            assert(pair_done(next, t, g) == pair_done(s, t, g));
            if pair_done(s, t, g) {
                assert(pair_swapped(before, now, start, t, g));
                assert(untouched(before, now, source_place(start, g)));
            } else {
                assert(untouched(before, now, target_place(start, t, g)));
            }
        }
    }
    lemma_error_free_push(s, now);
    assert(well_formed(next));
    assert(next.phase == Phase::Source || next.phase == Phase::Finished);
    assert(next.targets == start.targets && next.games == start.games);
    assert(next.source == start.source && next.source_is_backup == start.source_is_backup);
    assert(succeeded(next));
    assert(forall|g: int|
        0 <= g < next.games.len() ==> untouched(before, written, #[trigger] source_place(start, g)));
}

proof fn lemma_error_free_push(s: StateView, now: Disk)
    requires
        succeeded(s),
        s.phase == Phase::Source,
    ensures
        succeeded(pair_settled(s, now)),
{
    let next = pair_settled(s, now);
    assert forall|i: int| 0 <= i < next.log.len() implies severity_of(
        #[trigger] next.log[i].kind,
    ) != Severity::Error by {
        if i < s.log.len() {
            assert(next.log[i] == s.log[i]);
        }
    }
}

proof fn lemma_all_pairs(s: StateView, now: Disk, start: StateView, before: Disk, steps: nat)
    requires
        between_pairs(s, now, start, before),
        steps >= operations_left(s),
    ensures
        between_pairs(run(s, now, steps).0, run(s, now, steps).1, start, before),
        run(s, now, steps).0.phase == Phase::Finished,
    decreases steps,
{
    if s.phase != Phase::Finished {
        lemma_pairs_behind(s.target, s.game, s.targets.len() as int, s.games.len() as int);
        lemma_pair_keeps(s, now, start, before);
        lemma_pair(s, now, steps);
        lemma_all_pairs(
            pair_settled(s, now),
            pair_written(s, now),
            start,
            before,
            (steps - pair_operations(s, now)) as nat,
        );
    }
}

/// The swap as a whole. Where no target and no game is named twice, the
/// source is none of the targets and holds data for every game, a
/// transaction succeeds, after at most one operation for the backup
/// namespace and nine for each pair; every target then holds the source's
/// data for every game, its earlier data for the game, if it had any, lies
/// in its backup slot, and the source holds what it held.
pub proof fn lemma_swap_all(
    source: Seq<char>,
    source_is_backup: bool,
    targets: Seq<Seq<char>>,
    games: Seq<Seq<char>>,
    disk: Disk,
    steps: nat,
)
    requires
        servable(initial(source, source_is_backup, targets, games), disk),
        steps > 9 * (targets.len() * games.len()),
    ensures
        ({
            let start = initial(source, source_is_backup, targets, games);
            let (end, after) = run(start, disk, steps);
            &&& end.phase == Phase::Finished
            &&& succeeded(end)
            &&& forall|g: int|
                0 <= g < games.len() ==> untouched(disk, after, #[trigger] source_place(start, g))
            &&& forall|t: int, g: int|
                0 <= t < targets.len() && 0 <= g < games.len() ==> #[trigger] pair_swapped(
                    disk,
                    after,
                    start,
                    t,
                    g,
                )
        }),
{
    let start = initial(source, source_is_backup, targets, games);
    let first = at_first_pair(start);
    lemma_run_unfold(start, disk, steps);
    assert(stepped(start, disk) == (first, disk));
    assert(succeeded(first));
    assert(between_pairs(first, disk, start, disk));
    if first.phase == Phase::Source {
        lemma_pair_count(0, 0, targets.len() as int, games.len() as int);
        assert(pairs_behind(first) == targets.len() * games.len() - 1) by (nonlinear_arith)
            requires
                pairs_behind(first) == (targets.len() - 1 - 0) * games.len() + (games.len() - 1
                    - 0),
        ;
    }
    lemma_all_pairs(first, disk, start, disk, (steps - 1) as nat);
    let (end, after) = run(start, disk, steps);
    assert forall|t: int, g: int| 0 <= t < targets.len() && 0 <= g < games.len() implies #[trigger] pair_swapped(
        disk,
        after,
        start,
        t,
        g,
    ) by {
        assert(pair_done(end, t, g));
    }
}


/// Round trip. Where the source and a target, another profile, both hold
/// data for the game, the transaction for this one pair succeeds and leaves
/// the target's earlier data in its backup slot and the source's data in the
/// target; the source keeps its data.
pub proof fn lemma_swap_round_trip(
    source: Seq<char>,
    source_is_backup: bool,
    target: Seq<char>,
    game: Seq<char>,
    disk: Disk,
)
    requires
        disk.dom().contains(SlotView { backup: source_is_backup, profile: source, game }),
        disk.dom().contains(SlotView { backup: false, profile: target, game }),
        source != target,
    ensures
        ({
            let from = SlotView { backup: source_is_backup, profile: source, game };
            let to = SlotView { backup: false, profile: target, game };
            let kept = SlotView { backup: true, profile: target, game };
            let (end, after) = run(single_swap(source, source_is_backup, target, game), disk, 10);
            &&& end.phase == Phase::Finished
            &&& succeeded(end)
            &&& after.dom().contains(from) && after[from] == disk[from]
            &&& after.dom().contains(to) && after[to] == disk[from]
            &&& after.dom().contains(kept) && after[kept] == disk[to]
        }),
{
    let start = single_swap(source, source_is_backup, target, game);
    assert(source_place(start, 0) == (SlotView {
        backup: source_is_backup,
        profile: source,
        game,
    }));
    assert(servable(start, disk));
    lemma_swap_all(source, source_is_backup, seq![target], seq![game], disk, 10);
    let (end, after) = run(start, disk, 10);
    assert(pair_swapped(disk, after, start, 0, 0));
    assert(untouched(disk, after, source_place(start, 0)));
}

/// Idempotence. Running the same successful transaction a second time
/// leaves the source's data in the target, as the first run did, and now in
/// the target's backup slot too, since that is what the target held.
pub proof fn lemma_swap_twice(
    source: Seq<char>,
    source_is_backup: bool,
    target: Seq<char>,
    game: Seq<char>,
    disk: Disk,
)
    requires
        disk.dom().contains(SlotView { backup: source_is_backup, profile: source, game }),
        disk.dom().contains(SlotView { backup: false, profile: target, game }),
        source != target,
    ensures
        ({
            let from = SlotView { backup: source_is_backup, profile: source, game };
            let to = SlotView { backup: false, profile: target, game };
            let kept = SlotView { backup: true, profile: target, game };
            let swap = single_swap(source, source_is_backup, target, game);
            let (first_end, once) = run(swap, disk, 10);
            let (end, twice) = run(swap, once, 10);
            &&& end.phase == Phase::Finished
            &&& succeeded(end)
            &&& twice[from] == disk[from]
            &&& twice[to] == once[to]
            &&& twice[to] == disk[from]
            &&& twice[kept] == disk[from]
        }),
{
    lemma_swap_round_trip(source, source_is_backup, target, game, disk);
    let swap = single_swap(source, source_is_backup, target, game);
    let (first_end, once) = run(swap, disk, 10);
    lemma_swap_round_trip(source, source_is_backup, target, game, once);
}

} // verus!
